//! Heap-resident objects: the tagged variant the heap stores, and the
//! run-time object kinds the virtual machine creates.

use vstd::prelude::*;
use crate::function::Function;
use crate::function::fun_in_bounds;
use crate::function::fun_marked;
use crate::function::fun_ok;
use crate::function::fun_size;
use crate::heap::Heap;
use crate::heap::mark_step;
use crate::heap::sat_usize;
use crate::heap::mul_saturating;
use crate::reference::Reference;
use crate::reference::Tag;
use crate::reference::marked_at;
use crate::reference::ref_in_bounds;
use crate::reference::ref_is;
use crate::value::Value;
use crate::value::value_in_bounds;
use crate::value::value_marked;
use crate::value::value_ok;

verus! {

/// Bytes charged for a string's fixed structure.
pub const STRING_BASE_SIZE: usize = 24;

/// Bytes charged per character of a string.
pub const STRING_CHAR_SIZE: usize = 4;

/// Bytes charged for a closure's fixed structure.
pub const CLOSURE_BASE_SIZE: usize = 40;

/// Bytes charged per captured upvalue reference.
pub const UPVALUE_REF_SIZE: usize = 16;

/// Bytes charged for a class's fixed structure.
pub const CLASS_BASE_SIZE: usize = 40;

/// Bytes charged per method table entry.
pub const METHOD_ENTRY_SIZE: usize = 32;

/// Bytes charged for an instance's fixed structure.
pub const INSTANCE_BASE_SIZE: usize = 40;

/// Bytes charged per instance field entry.
pub const FIELD_ENTRY_SIZE: usize = 32;

/// Bytes charged for a bound method.
pub const BOUND_METHOD_SIZE: usize = 48;

/// Bytes charged for an upvalue cell.
pub const UPVALUE_CELL_SIZE: usize = 32;

/// A function paired with the upvalues captured when the closure was made.
#[derive(Clone, Debug)]
pub struct Closure {
    /// The compile-time template this closure instantiates.
    pub function: Reference,
    /// The captured upvalue cells, one per upvalue specification.
    pub upvalues: Vec<Reference>,
}

/// A class: a name and a method table.
#[derive(Clone, Debug)]
pub struct Class {
    /// The class's name.
    pub name: Reference,
    /// Method table: name string to closure.
    pub methods: Vec<(Reference, Reference)>,
}

/// An instance of a class: its class and its named fields.
#[derive(Clone, Debug)]
pub struct Instance {
    /// The instance's class.
    pub class: Reference,
    /// Field table: name string to value.
    pub fields: Vec<(Reference, Value)>,
}

/// A method closure bound to the instance it was read from.
#[derive(Clone, Copy, Debug)]
pub struct BoundMethod {
    /// The receiver; always an instance.
    pub receiver: Value,
    /// The bound method's closure.
    pub method: Reference,
}

/// An upvalue cell: open while its stack slot is live, closed with the
/// slot's final value afterwards.
#[derive(Clone, Copy, Debug)]
pub enum HeapUpvalue {
    /// Still points at a live stack slot.
    Open(usize),
    /// Holds the value moved out of the stack slot.
    Closed(Value),
}

/// A heap-resident object: one tagged variant per object kind, dispatched
/// by tag rather than by inheritance.
#[derive(Debug)]
pub enum Object {
    String(String),
    Function(Function),
    Closure(Closure),
    Class(Class),
    Instance(Instance),
    BoundMethod(BoundMethod),
    Upvalue(HeapUpvalue),
}

/// The closure's references resolve to the kinds it expects.
pub open spec fn closure_ok(objects: Seq<Option<Object>>, c: Closure) -> bool {
    &&& ref_is(objects, c.function, Tag::Function)
    &&& forall|j: int|
        0 <= j < c.upvalues@.len() ==> ref_is(objects, #[trigger] c.upvalues@[j], Tag::Upvalue)
}

pub open spec fn closure_marked(marked: Seq<bool>, c: Closure) -> bool {
    &&& marked_at(marked, c.function)
    &&& forall|j: int| 0 <= j < c.upvalues@.len() ==> marked_at(marked, #[trigger] c.upvalues@[j])
}

pub open spec fn closure_in_bounds(c: Closure, n: nat) -> bool {
    &&& ref_in_bounds(c.function, n)
    &&& forall|j: int| 0 <= j < c.upvalues@.len() ==> ref_in_bounds(#[trigger] c.upvalues@[j], n)
}

pub open spec fn closure_size(c: Closure) -> int {
    CLOSURE_BASE_SIZE + c.upvalues@.len() * UPVALUE_REF_SIZE
}

/// The class's references resolve: a string name, and method entries of
/// string names and closures. The method table is a map, so its name
/// keys are pairwise distinct.
pub open spec fn class_ok(objects: Seq<Option<Object>>, c: Class) -> bool {
    &&& ref_is(objects, c.name, Tag::String)
    &&& forall|j: int|
        0 <= j < c.methods@.len() ==> ref_is(objects, (#[trigger] c.methods@[j]).0, Tag::String)
            && ref_is(objects, c.methods@[j].1, Tag::Closure)
    &&& forall|j: int, k: int|
        0 <= j < k < c.methods@.len() ==> (#[trigger] c.methods@[j]).0 != (
        #[trigger] c.methods@[k]).0
}

pub open spec fn class_marked(marked: Seq<bool>, c: Class) -> bool {
    &&& marked_at(marked, c.name)
    &&& forall|j: int|
        0 <= j < c.methods@.len() ==> marked_at(marked, (#[trigger] c.methods@[j]).0) && marked_at(
            marked,
            c.methods@[j].1,
        )
}

pub open spec fn class_in_bounds(c: Class, n: nat) -> bool {
    &&& ref_in_bounds(c.name, n)
    &&& forall|j: int|
        0 <= j < c.methods@.len() ==> ref_in_bounds((#[trigger] c.methods@[j]).0, n)
            && ref_in_bounds(c.methods@[j].1, n)
}

pub open spec fn class_size(c: Class) -> int {
    CLASS_BASE_SIZE + c.methods@.len() * METHOD_ENTRY_SIZE
}

/// The instance's references resolve: its class, and field entries of
/// string names and consistent values. The field table is a map, so its
/// name keys are pairwise distinct.
pub open spec fn instance_ok(objects: Seq<Option<Object>>, i: Instance) -> bool {
    &&& ref_is(objects, i.class, Tag::Class)
    &&& forall|j: int|
        0 <= j < i.fields@.len() ==> ref_is(objects, (#[trigger] i.fields@[j]).0, Tag::String)
            && value_ok(objects, i.fields@[j].1)
    &&& forall|j: int, k: int|
        0 <= j < k < i.fields@.len() ==> (#[trigger] i.fields@[j]).0 != (
        #[trigger] i.fields@[k]).0
}

pub open spec fn instance_marked(marked: Seq<bool>, i: Instance) -> bool {
    &&& marked_at(marked, i.class)
    &&& forall|j: int|
        0 <= j < i.fields@.len() ==> marked_at(marked, (#[trigger] i.fields@[j]).0)
            && value_marked(marked, i.fields@[j].1)
}

pub open spec fn instance_in_bounds(i: Instance, n: nat) -> bool {
    &&& ref_in_bounds(i.class, n)
    &&& forall|j: int|
        0 <= j < i.fields@.len() ==> ref_in_bounds((#[trigger] i.fields@[j]).0, n)
            && value_in_bounds(i.fields@[j].1, n)
}

pub open spec fn instance_size(i: Instance) -> int {
    INSTANCE_BASE_SIZE + i.fields@.len() * FIELD_ENTRY_SIZE
}

/// The bound method's receiver is a consistent instance value and its
/// method a closure.
pub open spec fn bound_method_ok(objects: Seq<Option<Object>>, b: BoundMethod) -> bool {
    &&& b.receiver is Instance
    &&& value_ok(objects, b.receiver)
    &&& ref_is(objects, b.method, Tag::Closure)
}

pub open spec fn bound_method_marked(marked: Seq<bool>, b: BoundMethod) -> bool {
    &&& value_marked(marked, b.receiver)
    &&& marked_at(marked, b.method)
}

pub open spec fn bound_method_in_bounds(b: BoundMethod, n: nat) -> bool {
    &&& value_in_bounds(b.receiver, n)
    &&& ref_in_bounds(b.method, n)
}

/// A closed upvalue holds a consistent value; an open one points at the
/// stack, not the heap.
pub open spec fn upvalue_ok(objects: Seq<Option<Object>>, u: HeapUpvalue) -> bool {
    match u {
        HeapUpvalue::Open(_) => true,
        HeapUpvalue::Closed(v) => value_ok(objects, v),
    }
}

pub open spec fn upvalue_marked(marked: Seq<bool>, u: HeapUpvalue) -> bool {
    match u {
        HeapUpvalue::Open(_) => true,
        HeapUpvalue::Closed(v) => value_marked(marked, v),
    }
}

pub open spec fn upvalue_in_bounds(u: HeapUpvalue, n: nat) -> bool {
    match u {
        HeapUpvalue::Open(_) => true,
        HeapUpvalue::Closed(v) => value_in_bounds(v, n),
    }
}

/// The closure holds a reference to slot `i`.
pub open spec fn closure_ref_at(c: Closure, i: int) -> bool {
    ||| c.function.slot == i
    ||| exists|j: int| 0 <= j < c.upvalues@.len() && (#[trigger] c.upvalues@[j]).slot == i
}

/// The class holds a reference to slot `i`.
pub open spec fn class_ref_at(c: Class, i: int) -> bool {
    ||| c.name.slot == i
    ||| exists|j: int|
        0 <= j < c.methods@.len() && ((#[trigger] c.methods@[j]).0.slot == i || c.methods@[j].1.slot
            == i)
}

/// The instance holds a reference to slot `i`.
pub open spec fn instance_ref_at(inst: Instance, i: int) -> bool {
    ||| inst.class.slot == i
    ||| exists|j: int|
        0 <= j < inst.fields@.len() && ((#[trigger] inst.fields@[j]).0.slot == i
            || crate::value::value_ref_at(inst.fields@[j].1, i))
}

/// The bound method holds a reference to slot `i`.
pub open spec fn bound_method_ref_at(b: BoundMethod, i: int) -> bool {
    crate::value::value_ref_at(b.receiver, i) || b.method.slot == i
}

/// The upvalue cell holds a reference to slot `i`.
pub open spec fn upvalue_ref_at(u: HeapUpvalue, i: int) -> bool {
    match u {
        HeapUpvalue::Open(_) => false,
        HeapUpvalue::Closed(v) => crate::value::value_ref_at(v, i),
    }
}

/// The object holds a reference to slot `i`, dispatched by tag.
pub open spec fn obj_ref_at(o: Object, i: int) -> bool {
    match o {
        Object::String(_) => false,
        Object::Function(f) => crate::function::fun_ref_at(f, i),
        Object::Closure(c) => closure_ref_at(c, i),
        Object::Class(c) => class_ref_at(c, i),
        Object::Instance(inst) => instance_ref_at(inst, i),
        Object::BoundMethod(b) => bound_method_ref_at(b, i),
        Object::Upvalue(u) => upvalue_ref_at(u, i),
    }
}

/// Every reference the object holds resolves to an object of the kind it
/// expects.
pub open spec fn obj_ok(objects: Seq<Option<Object>>, o: Object) -> bool {
    match o {
        Object::String(_) => true,
        Object::Function(f) => fun_ok(objects, f),
        Object::Closure(c) => closure_ok(objects, c),
        Object::Class(c) => class_ok(objects, c),
        Object::Instance(i) => instance_ok(objects, i),
        Object::BoundMethod(b) => bound_method_ok(objects, b),
        Object::Upvalue(u) => upvalue_ok(objects, u),
    }
}

/// Every reference the object holds has its mark bit set.
pub open spec fn obj_marked(marked: Seq<bool>, o: Object) -> bool {
    match o {
        Object::String(_) => true,
        Object::Function(f) => fun_marked(marked, f),
        Object::Closure(c) => closure_marked(marked, c),
        Object::Class(c) => class_marked(marked, c),
        Object::Instance(i) => instance_marked(marked, i),
        Object::BoundMethod(b) => bound_method_marked(marked, b),
        Object::Upvalue(u) => upvalue_marked(marked, u),
    }
}

/// Every reference the object holds points below `n`.
pub open spec fn obj_in_bounds(o: Object, n: nat) -> bool {
    match o {
        Object::String(_) => true,
        Object::Function(f) => fun_in_bounds(f, n),
        Object::Closure(c) => closure_in_bounds(c, n),
        Object::Class(c) => class_in_bounds(c, n),
        Object::Instance(i) => instance_in_bounds(i, n),
        Object::BoundMethod(b) => bound_method_in_bounds(b, n),
        Object::Upvalue(u) => upvalue_in_bounds(u, n),
    }
}

/// Bytes the object contributes to the heap's allocation count.
pub open spec fn obj_size(o: Object) -> int {
    match o {
        Object::String(s) => STRING_BASE_SIZE + s@.len() * STRING_CHAR_SIZE,
        Object::Function(f) => fun_size(f),
        Object::Closure(c) => closure_size(c),
        Object::Class(c) => class_size(c),
        Object::Instance(i) => instance_size(i),
        Object::BoundMethod(_) => BOUND_METHOD_SIZE as int,
        Object::Upvalue(_) => UPVALUE_CELL_SIZE as int,
    }
}

/// A closure displays as its function does.
pub open spec fn closure_format(objects: Seq<Option<Object>>, c: Closure) -> Seq<char> {
    crate::function::function_format(objects, objects[c.function.slot as int]->Some_0->Function_0)
}

/// A class displays as its name.
pub open spec fn class_format(objects: Seq<Option<Object>>, c: Class) -> Seq<char> {
    crate::heap::string_at(objects, c.name)
}

/// An instance displays as its class's name followed by ` instance`.
pub open spec fn instance_format(objects: Seq<Option<Object>>, i: Instance) -> Seq<char> {
    crate::heap::string_at(objects, objects[i.class.slot as int]->Some_0->Class_0.name)
        + " instance"@
}

/// A bound method displays as the closure it binds.
pub open spec fn bound_method_format(objects: Seq<Option<Object>>, b: BoundMethod) -> Seq<char> {
    closure_format(objects, objects[b.method.slot as int]->Some_0->Closure_0)
}

impl Closure {
    /// The closure's display form: that of its function.
    pub fn format(&self, garbage_collector: &Heap) -> (r: String)
        requires
            garbage_collector.wf(),
            ref_is(garbage_collector.objects@, self.function, Tag::Function),
        ensures
            r@ == closure_format(garbage_collector.objects@, *self),
    {
        let f = garbage_collector.deref_function(self.function);
        proof {
            assert(obj_ok(
                garbage_collector.objects@,
                garbage_collector.objects@[self.function.slot as int]->Some_0,
            ));
        }
        f.format(garbage_collector)
    }

    /// Marks the closure's function and every captured upvalue cell.
    pub fn trace(&self, garbage_collector: &mut Heap)
        requires
            closure_in_bounds(*self, old(garbage_collector).marked@.len() as nat),
        ensures
            mark_step(*old(garbage_collector), *final(garbage_collector)),
            closure_marked(final(garbage_collector).marked@, *self),
            forall|i: int|
                0 <= i < final(garbage_collector).marked@.len()
                    && (#[trigger] final(garbage_collector).marked@[i])
                    && !old(garbage_collector).marked@[i] ==> closure_ref_at(*self, i),
    {
        garbage_collector.mark_object(self.function);
        let ghost start = *garbage_collector;
        let mut j: usize = 0;
        while j < self.upvalues.len()
            invariant
                j <= self.upvalues@.len(),
                closure_in_bounds(*self, garbage_collector.marked@.len() as nat),
                mark_step(start, *garbage_collector),
                marked_at(garbage_collector.marked@, self.function),
                forall|k: int|
                    0 <= k < j ==> marked_at(garbage_collector.marked@, #[trigger] self.upvalues@[k]),
                forall|i: int|
                    0 <= i < garbage_collector.marked@.len()
                        && (#[trigger] garbage_collector.marked@[i])
                        && !old(garbage_collector).marked@[i] ==> closure_ref_at(*self, i),
            decreases self.upvalues@.len() - j,
        {
            let ghost before = *garbage_collector;
            garbage_collector.mark_object(self.upvalues[j]);
            proof {
                crate::heap::lemma_mark_step_trans(start, before, *garbage_collector);
                assert forall|i: int|
                    0 <= i < garbage_collector.marked@.len()
                        && (#[trigger] garbage_collector.marked@[i])
                        && !old(garbage_collector).marked@[i] implies closure_ref_at(*self, i) by {
                    if !before.marked@[i] {
                        assert((#[trigger] self.upvalues@[j as int]).slot == i);
                    }
                }
            }
            j += 1;
        }
        proof {
            crate::heap::lemma_mark_step_trans(*old(garbage_collector), start, *garbage_collector);
        }
    }
}

impl Class {
    /// The class's display form: its name.
    pub fn format(&self, garbage_collector: &Heap) -> (r: String)
        requires
            ref_is(garbage_collector.objects@, self.name, Tag::String),
        ensures
            r@ == class_format(garbage_collector.objects@, *self),
    {
        let name = garbage_collector.deref_string(self.name);
        name.clone()
    }

    /// Marks the class's name and every method entry.
    pub fn trace(&self, garbage_collector: &mut Heap)
        requires
            class_in_bounds(*self, old(garbage_collector).marked@.len() as nat),
        ensures
            mark_step(*old(garbage_collector), *final(garbage_collector)),
            class_marked(final(garbage_collector).marked@, *self),
            forall|i: int|
                0 <= i < final(garbage_collector).marked@.len()
                    && (#[trigger] final(garbage_collector).marked@[i])
                    && !old(garbage_collector).marked@[i] ==> class_ref_at(*self, i),
    {
        garbage_collector.mark_object(self.name);
        let ghost start = *garbage_collector;
        let mut j: usize = 0;
        while j < self.methods.len()
            invariant
                j <= self.methods@.len(),
                class_in_bounds(*self, garbage_collector.marked@.len() as nat),
                mark_step(start, *garbage_collector),
                marked_at(garbage_collector.marked@, self.name),
                forall|k: int|
                    0 <= k < j ==> marked_at(garbage_collector.marked@, (#[trigger] self.methods@[k]).0)
                        && marked_at(garbage_collector.marked@, self.methods@[k].1),
                forall|i: int|
                    0 <= i < garbage_collector.marked@.len()
                        && (#[trigger] garbage_collector.marked@[i])
                        && !old(garbage_collector).marked@[i] ==> class_ref_at(*self, i),
            decreases self.methods@.len() - j,
        {
            let ghost before = *garbage_collector;
            let entry = self.methods[j];
            garbage_collector.mark_object(entry.0);
            let ghost mid = *garbage_collector;
            garbage_collector.mark_object(entry.1);
            proof {
                crate::heap::lemma_mark_step_trans(before, mid, *garbage_collector);
                crate::heap::lemma_mark_step_trans(start, before, *garbage_collector);
                assert forall|i: int|
                    0 <= i < garbage_collector.marked@.len()
                        && (#[trigger] garbage_collector.marked@[i])
                        && !old(garbage_collector).marked@[i] implies class_ref_at(*self, i) by {
                    if !before.marked@[i] {
                        assert((#[trigger] self.methods@[j as int]).0.slot == i
                            || self.methods@[j as int].1.slot == i);
                    }
                }
            }
            j += 1;
        }
        proof {
            crate::heap::lemma_mark_step_trans(*old(garbage_collector), start, *garbage_collector);
        }
    }
}

impl Instance {
    /// The instance's display form: its class's name and ` instance`.
    pub fn format(&self, garbage_collector: &Heap) -> (r: String)
        requires
            garbage_collector.wf(),
            ref_is(garbage_collector.objects@, self.class, Tag::Class),
        ensures
            r@ == instance_format(garbage_collector.objects@, *self),
    {
        let class = garbage_collector.deref_class(self.class);
        proof {
            assert(obj_ok(
                garbage_collector.objects@,
                garbage_collector.objects@[self.class.slot as int]->Some_0,
            ));
        }
        let name = garbage_collector.deref_string(class.name);
        let mut out = name.clone();
        out.append(" instance");
        out
    }

    /// Marks the instance's class and every field entry.
    pub fn trace(&self, garbage_collector: &mut Heap)
        requires
            instance_in_bounds(*self, old(garbage_collector).marked@.len() as nat),
        ensures
            mark_step(*old(garbage_collector), *final(garbage_collector)),
            instance_marked(final(garbage_collector).marked@, *self),
            forall|i: int|
                0 <= i < final(garbage_collector).marked@.len()
                    && (#[trigger] final(garbage_collector).marked@[i])
                    && !old(garbage_collector).marked@[i] ==> instance_ref_at(*self, i),
    {
        garbage_collector.mark_object(self.class);
        let ghost start = *garbage_collector;
        let mut j: usize = 0;
        while j < self.fields.len()
            invariant
                j <= self.fields@.len(),
                instance_in_bounds(*self, garbage_collector.marked@.len() as nat),
                mark_step(start, *garbage_collector),
                marked_at(garbage_collector.marked@, self.class),
                forall|k: int|
                    0 <= k < j ==> marked_at(garbage_collector.marked@, (#[trigger] self.fields@[k]).0)
                        && value_marked(garbage_collector.marked@, self.fields@[k].1),
                forall|i: int|
                    0 <= i < garbage_collector.marked@.len()
                        && (#[trigger] garbage_collector.marked@[i])
                        && !old(garbage_collector).marked@[i] ==> instance_ref_at(*self, i),
            decreases self.fields@.len() - j,
        {
            let ghost before = *garbage_collector;
            let entry = self.fields[j];
            garbage_collector.mark_object(entry.0);
            let ghost mid = *garbage_collector;
            garbage_collector.mark_value(entry.1);
            proof {
                crate::heap::lemma_mark_step_trans(before, mid, *garbage_collector);
                crate::heap::lemma_mark_step_trans(start, before, *garbage_collector);
                assert forall|i: int|
                    0 <= i < garbage_collector.marked@.len()
                        && (#[trigger] garbage_collector.marked@[i])
                        && !old(garbage_collector).marked@[i] implies instance_ref_at(*self, i) by {
                    if !before.marked@[i] {
                        assert((#[trigger] self.fields@[j as int]).0.slot == i
                            || crate::value::value_ref_at(self.fields@[j as int].1, i));
                    }
                }
            }
            j += 1;
        }
        proof {
            crate::heap::lemma_mark_step_trans(*old(garbage_collector), start, *garbage_collector);
        }
    }
}

impl BoundMethod {
    /// The bound method's display form: that of the closure it binds.
    pub fn format(&self, garbage_collector: &Heap) -> (r: String)
        requires
            garbage_collector.wf(),
            ref_is(garbage_collector.objects@, self.method, Tag::Closure),
        ensures
            r@ == bound_method_format(garbage_collector.objects@, *self),
    {
        let closure = garbage_collector.deref_closure(self.method);
        proof {
            assert(obj_ok(
                garbage_collector.objects@,
                garbage_collector.objects@[self.method.slot as int]->Some_0,
            ));
        }
        closure.format(garbage_collector)
    }

    /// Marks the receiver and the bound closure.
    pub fn trace(&self, garbage_collector: &mut Heap)
        requires
            bound_method_in_bounds(*self, old(garbage_collector).marked@.len() as nat),
        ensures
            mark_step(*old(garbage_collector), *final(garbage_collector)),
            bound_method_marked(final(garbage_collector).marked@, *self),
            forall|i: int|
                0 <= i < final(garbage_collector).marked@.len()
                    && (#[trigger] final(garbage_collector).marked@[i])
                    && !old(garbage_collector).marked@[i] ==> bound_method_ref_at(*self, i),
    {
        self.receiver.trace(garbage_collector);
        let ghost mid = *garbage_collector;
        garbage_collector.mark_object(self.method);
        proof {
            crate::heap::lemma_mark_step_trans(*old(garbage_collector), mid, *garbage_collector);
        }
    }
}

impl HeapUpvalue {
    /// Marks the closed value's reference, if the cell is closed.
    pub fn trace(&self, garbage_collector: &mut Heap)
        requires
            upvalue_in_bounds(*self, old(garbage_collector).marked@.len() as nat),
        ensures
            mark_step(*old(garbage_collector), *final(garbage_collector)),
            upvalue_marked(final(garbage_collector).marked@, *self),
            forall|i: int|
                0 <= i < final(garbage_collector).marked@.len()
                    && (#[trigger] final(garbage_collector).marked@[i])
                    && !old(garbage_collector).marked@[i] ==> upvalue_ref_at(*self, i),
    {
        match self {
            HeapUpvalue::Open(_) => (),
            HeapUpvalue::Closed(v) => v.trace(garbage_collector),
        }
    }
}

impl Object {
    /// Which kind of object this is.
    pub fn tag(&self) -> (r: Tag)
        ensures
            r == crate::reference::obj_tag(*self),
    {
        match self {
            Object::String(_) => Tag::String,
            Object::Function(_) => Tag::Function,
            Object::Closure(_) => Tag::Closure,
            Object::Class(_) => Tag::Class,
            Object::Instance(_) => Tag::Instance,
            Object::BoundMethod(_) => Tag::BoundMethod,
            Object::Upvalue(_) => Tag::Upvalue,
        }
    }

    /// Bytes this object contributes to `bytes_allocated`, saturating at
    /// the machine limit.
    pub fn get_size(&self) -> (r: usize)
        ensures
            r == sat_usize(obj_size(*self)),
    {
        match self {
            Object::String(s) => STRING_BASE_SIZE.saturating_add(
                mul_saturating(s.as_str().unicode_len(), STRING_CHAR_SIZE),
            ),
            Object::Function(f) => f.get_size(),
            Object::Closure(c) => CLOSURE_BASE_SIZE.saturating_add(
                mul_saturating(c.upvalues.len(), UPVALUE_REF_SIZE),
            ),
            Object::Class(c) => CLASS_BASE_SIZE.saturating_add(
                mul_saturating(c.methods.len(), METHOD_ENTRY_SIZE),
            ),
            Object::Instance(i) => INSTANCE_BASE_SIZE.saturating_add(
                mul_saturating(i.fields.len(), FIELD_ENTRY_SIZE),
            ),
            Object::BoundMethod(_) => BOUND_METHOD_SIZE,
            Object::Upvalue(_) => UPVALUE_CELL_SIZE,
        }
    }

    /// Marks every reference this object holds, dispatched by tag.
    pub fn trace(&self, garbage_collector: &mut Heap)
        requires
            obj_in_bounds(*self, old(garbage_collector).marked@.len() as nat),
        ensures
            mark_step(*old(garbage_collector), *final(garbage_collector)),
            obj_marked(final(garbage_collector).marked@, *self),
            forall|i: int|
                0 <= i < final(garbage_collector).marked@.len()
                    && (#[trigger] final(garbage_collector).marked@[i])
                    && !old(garbage_collector).marked@[i] ==> obj_ref_at(*self, i),
    {
        match self {
            Object::String(_) => (),
            Object::Function(f) => f.trace(garbage_collector),
            Object::Closure(c) => c.trace(garbage_collector),
            Object::Class(c) => c.trace(garbage_collector),
            Object::Instance(i) => i.trace(garbage_collector),
            Object::BoundMethod(b) => b.trace(garbage_collector),
            Object::Upvalue(u) => u.trace(garbage_collector),
        }
    }
}

} // verus!
