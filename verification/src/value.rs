//! Tagged values: small, copyable, stored by-value on the stack and in
//! constant pools. Reference variants point into the heap.

use vstd::prelude::*;
use crate::heap::Heap;
use crate::heap::mark_step;
use crate::object::Object;
use crate::reference::Reference;
use crate::reference::Tag;
use crate::reference::marked_at;
use crate::reference::ref_in_bounds;
use crate::reference::ref_is;

verus! {

/// A host function callable from the object language, identified by its
/// index in the host's registration table. The runtime only stores and
/// compares the handle; the host owns the code it names.
#[derive(Clone, Copy, Debug, PartialEq, Eq, Structural)]
pub struct NativeFunction {
    /// Index into the host's table of native functions.
    pub id: usize,
    /// Number of arguments the native function expects.
    pub arity: usize,
}

/// The `Value` enum. Numbers are stored as the bit pattern of their
/// binary64 representation; the host layer renders and computes on them.
#[derive(Clone, Copy, Debug, PartialEq)]
pub enum Value {
    /// Nil.
    Nil,
    /// Boolean.
    Boolean(bool),
    /// A native function.
    NativeFunction(NativeFunction),
    /// A number, as the bit pattern of its binary64 representation.
    Number(u64),
    /// Bound methods.
    BoundMethod(Reference),
    /// Closure.
    Closure(Reference),
    /// Function.
    Function(Reference),
    /// Class instances.
    Instance(Reference),
    /// String.
    String(Reference),
    /// Class.
    Class(Reference),
}

/// The heap reference a value holds, if any.
pub open spec fn value_ref(v: Value) -> Option<Reference> {
    match v {
        Value::BoundMethod(r) => Some(r),
        Value::Closure(r) => Some(r),
        Value::Function(r) => Some(r),
        Value::Instance(r) => Some(r),
        Value::String(r) => Some(r),
        Value::Class(r) => Some(r),
        _ => None,
    }
}

/// A value is consistent with a heap whose slots hold `objects`: its
/// reference, if any, resolves to an object of the kind the variant names.
pub open spec fn value_ok(objects: Seq<Option<Object>>, v: Value) -> bool {
    match v {
        Value::BoundMethod(r) => ref_is(objects, r, Tag::BoundMethod),
        Value::Closure(r) => ref_is(objects, r, Tag::Closure),
        Value::Function(r) => ref_is(objects, r, Tag::Function),
        Value::Instance(r) => ref_is(objects, r, Tag::Instance),
        Value::String(r) => ref_is(objects, r, Tag::String),
        Value::Class(r) => ref_is(objects, r, Tag::Class),
        _ => true,
    }
}

/// The value's reference, if any, has its mark bit set.
pub open spec fn value_marked(marked: Seq<bool>, v: Value) -> bool {
    match value_ref(v) {
        Some(r) => marked_at(marked, r),
        None => true,
    }
}

/// The value holds a reference to slot `i`.
pub open spec fn value_ref_at(v: Value, i: int) -> bool {
    match value_ref(v) {
        Some(r) => r.slot == i,
        None => false,
    }
}

/// The value's reference, if any, points below `n`.
pub open spec fn value_in_bounds(v: Value, n: nat) -> bool {
    match value_ref(v) {
        Some(r) => ref_in_bounds(r, n),
        None => true,
    }
}

/// The display form of a value, resolving nested references through the
/// heap. A number has none here: its rendering belongs to the host's
/// floating-point formatter.
pub open spec fn value_format(objects: Seq<Option<Object>>, v: Value) -> Option<Seq<char>> {
    match v {
        Value::Nil => Some("nil"@),
        Value::Boolean(b) => Some(
            if b {
                "true"@
            } else {
                "false"@
            },
        ),
        Value::NativeFunction(_) => Some("<native fn>"@),
        Value::Number(_) => None,
        Value::String(r) => Some(crate::heap::string_at(objects, r)),
        Value::Function(r) => Some(
            crate::function::function_format(objects, objects[r.slot as int]->Some_0->Function_0),
        ),
        Value::Closure(r) => Some(
            crate::object::closure_format(objects, objects[r.slot as int]->Some_0->Closure_0),
        ),
        Value::Class(r) => Some(
            crate::object::class_format(objects, objects[r.slot as int]->Some_0->Class_0),
        ),
        Value::Instance(r) => Some(
            crate::object::instance_format(objects, objects[r.slot as int]->Some_0->Instance_0),
        ),
        Value::BoundMethod(r) => Some(
            crate::object::bound_method_format(
                objects,
                objects[r.slot as int]->Some_0->BoundMethod_0,
            ),
        ),
    }
}

impl Value {
    /// Is this "falsey" or not? Only `nil` and `false` are.
    #[inline]
    pub fn is_falsey(&self) -> (r: bool)
        ensures
            r == (*self == Value::Nil || *self == Value::Boolean(false)),
    {
        match self {
            Value::Nil => true,
            Value::Boolean(value) => !value,
            _ => false,
        }
    }

    /// The reference this value holds, if any.
    pub fn as_reference(&self) -> (r: Option<Reference>)
        ensures
            r == value_ref(*self),
    {
        match self {
            Value::BoundMethod(r) => Some(*r),
            Value::Closure(r) => Some(*r),
            Value::Function(r) => Some(*r),
            Value::Instance(r) => Some(*r),
            Value::String(r) => Some(*r),
            Value::Class(r) => Some(*r),
            _ => None,
        }
    }

    /// The value's display form, nested references resolved through the
    /// heap. A number yields `None`: its rendering needs the host's
    /// floating-point formatter, which the runtime core does not model.
    pub fn format(&self, garbage_collector: &Heap) -> (r: Option<String>)
        requires
            garbage_collector.wf(),
            value_ok(garbage_collector.objects@, *self),
        ensures
            r is None <==> *self is Number,
            r matches Some(s) ==> value_format(garbage_collector.objects@, *self) == Some(s@),
    {
        match self {
            Value::Nil => Some(String::from_str("nil")),
            Value::Boolean(value) => Some(
                String::from_str(
                    if *value {
                        "true"
                    } else {
                        "false"
                    },
                ),
            ),
            Value::NativeFunction(_) => Some(String::from_str("<native fn>")),
            Value::Number(_) => None,
            Value::String(reference) => {
                let s = garbage_collector.deref_string(*reference);
                Some(s.clone())
            },
            Value::Function(reference) => {
                let f = garbage_collector.deref_function(*reference);
                proof {
                    assert(crate::object::obj_ok(
                        garbage_collector.objects@,
                        garbage_collector.objects@[reference.slot as int]->Some_0,
                    ));
                }
                Some(f.format(garbage_collector))
            },
            Value::Closure(reference) => {
                let c = garbage_collector.deref_closure(*reference);
                proof {
                    assert(crate::object::obj_ok(
                        garbage_collector.objects@,
                        garbage_collector.objects@[reference.slot as int]->Some_0,
                    ));
                }
                Some(c.format(garbage_collector))
            },
            Value::Class(reference) => {
                let c = garbage_collector.deref_class(*reference);
                proof {
                    assert(crate::object::obj_ok(
                        garbage_collector.objects@,
                        garbage_collector.objects@[reference.slot as int]->Some_0,
                    ));
                }
                Some(c.format(garbage_collector))
            },
            Value::Instance(reference) => {
                let i = garbage_collector.deref_instance(*reference);
                proof {
                    assert(crate::object::obj_ok(
                        garbage_collector.objects@,
                        garbage_collector.objects@[reference.slot as int]->Some_0,
                    ));
                }
                Some(i.format(garbage_collector))
            },
            Value::BoundMethod(reference) => {
                let b = garbage_collector.deref_bound_method(*reference);
                proof {
                    assert(crate::object::obj_ok(
                        garbage_collector.objects@,
                        garbage_collector.objects@[reference.slot as int]->Some_0,
                    ));
                }
                Some(b.format(garbage_collector))
            },
        }
    }

    /// Bytes a value contributes to the heap's allocation count: none, as
    /// values are stored inline.
    pub fn get_size(&self) -> (r: usize)
        ensures
            r == 0,
    {
        0
    }

    /// Marks the reference this value holds, if any.
    pub fn trace(&self, garbage_collector: &mut Heap)
        requires
            value_in_bounds(*self, old(garbage_collector).marked@.len() as nat),
        ensures
            mark_step(*old(garbage_collector), *final(garbage_collector)),
            value_marked(final(garbage_collector).marked@, *self),
            forall|i: int|
                0 <= i < final(garbage_collector).marked@.len()
                    && (#[trigger] final(garbage_collector).marked@[i])
                    && !old(garbage_collector).marked@[i] ==> value_ref_at(*self, i),
    {
        match self {
            Value::BoundMethod(value) => garbage_collector.mark_object(*value),
            Value::Class(value) => garbage_collector.mark_object(*value),
            Value::Closure(value) => garbage_collector.mark_object(*value),
            Value::Function(value) => garbage_collector.mark_object(*value),
            Value::Instance(value) => garbage_collector.mark_object(*value),
            Value::String(value) => garbage_collector.mark_object(*value),
            _ => (),
        }
    }
}

} // verus!
