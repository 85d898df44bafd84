//! Opaque handles into the heap: a slot index together with a type tag.

use vstd::prelude::*;
use crate::object::Object;

verus! {

/// The kind of heap object a `Reference` designates.
#[derive(Clone, Copy, Debug, PartialEq, Eq, Structural)]
pub enum Tag {
    String,
    Function,
    Closure,
    Class,
    Instance,
    BoundMethod,
    Upvalue,
}

/// An opaque, copyable handle identifying a heap slot. A reference never
/// owns the object; it is resolved through the heap. Two references are
/// equal exactly when their fields are equal; on a well-formed heap a slot
/// holds one kind of object, so equal slots carry equal tags.
#[derive(Clone, Copy, Debug, PartialEq, Eq, Structural)]
pub struct Reference {
    pub slot: usize,
    pub tag: Tag,
}

/// The tag describing which `Object` variant `o` is.
pub open spec fn obj_tag(o: Object) -> Tag {
    match o {
        Object::String(_) => Tag::String,
        Object::Function(_) => Tag::Function,
        Object::Closure(_) => Tag::Closure,
        Object::Class(_) => Tag::Class,
        Object::Instance(_) => Tag::Instance,
        Object::BoundMethod(_) => Tag::BoundMethod,
        Object::Upvalue(_) => Tag::Upvalue,
    }
}

/// `r` resolves on a heap whose slots hold `objects`: the slot is in range,
/// occupied, and the object there is of the kind the tag promises.
pub open spec fn ref_ok(objects: Seq<Option<Object>>, r: Reference) -> bool {
    &&& r.slot < objects.len()
    &&& objects[r.slot as int] is Some
    &&& obj_tag(objects[r.slot as int]->Some_0) == r.tag
}

/// `r` resolves and is of kind `tag`.
pub open spec fn ref_is(objects: Seq<Option<Object>>, r: Reference, tag: Tag) -> bool {
    ref_ok(objects, r) && r.tag == tag
}

/// The slot `r` points at carries a mark bit, and it is set.
pub open spec fn marked_at(marked: Seq<bool>, r: Reference) -> bool {
    r.slot < marked.len() && marked[r.slot as int]
}

/// `r` points below `n`, so the mark phase may touch its slot.
pub open spec fn ref_in_bounds(r: Reference, n: nat) -> bool {
    r.slot < n
}

} // verus!
