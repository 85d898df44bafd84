//! The heap: an indexed slab of object slots with per-slot mark bits, a
//! free list of reusable slots, a string-intern table, and the tracing
//! mark-sweep collector with its allocation-threshold trigger policy.

use vstd::prelude::*;
use vstd::pervasive::unreached;
use crate::function::Function;
use crate::object::Object;
use crate::object::HeapUpvalue;
use crate::object::obj_in_bounds;
use crate::object::obj_marked;
use crate::object::obj_ok;
use crate::object::obj_ref_at;
use crate::object::obj_size;
use crate::reference::Reference;
use crate::reference::Tag;
use crate::reference::marked_at;
use crate::reference::obj_tag;
use crate::reference::ref_ok;
use crate::reference::ref_is;
use crate::value::Value;
use crate::value::value_in_bounds;
use crate::value::value_marked;
use crate::value::value_ok;
use crate::value::value_ref;
use crate::value::value_ref_at;

verus! {

/// Collection first triggers once this many bytes are allocated.
pub const GC_INITIAL_THRESHOLD: usize = 1048576;

/// After a collection the threshold is the live bytes times this factor.
pub const GC_GROWTH_FACTOR: usize = 2;

/// `x` clamped into the usize range.
pub open spec fn sat_usize(x: int) -> usize {
    if x > usize::MAX {
        usize::MAX
    } else if x < 0 {
        0
    } else {
        x as usize
    }
}

/// Saturating product of two machine words.
pub fn mul_saturating(a: usize, b: usize) -> (r: usize)
    ensures
        r == sat_usize(a as int * b as int),
{
    match a.checked_mul(b) {
        Some(v) => v,
        None => usize::MAX,
    }
}

/// The character content of the string object `r` resolves to.
pub open spec fn string_at(objects: Seq<Option<Object>>, r: Reference) -> Seq<char>
    recommends
        ref_is(objects, r, Tag::String),
{
    objects[r.slot as int]->Some_0->String_0@
}

/// Bytes charged for the objects in the slots below `k`.
pub open spec fn live_bytes_prefix(objects: Seq<Option<Object>>, k: int) -> int
    decreases k,
{
    if k <= 0 {
        0
    } else {
        live_bytes_prefix(objects, k - 1) + match objects[k - 1] {
            Some(o) => sat_usize(obj_size(o)) as int,
            None => 0,
        }
    }
}

/// Bytes charged for every live object on the heap.
pub open spec fn live_bytes(objects: Seq<Option<Object>>) -> int {
    live_bytes_prefix(objects, objects.len() as int)
}

/// The charge of a prefix reads only the slots below `k`.
pub proof fn lemma_live_bytes_prefix_agree(
    o1: Seq<Option<Object>>,
    o2: Seq<Option<Object>>,
    k: int,
)
    requires
        forall|i: int| 0 <= i < k ==> o1[i] == o2[i],
    ensures
        live_bytes_prefix(o1, k) == live_bytes_prefix(o2, k),
    decreases k,
{
    if k > 0 {
        lemma_live_bytes_prefix_agree(o1, o2, k - 1);
    }
}

/// Filling an empty slot raises the charge by the object's size.
pub proof fn lemma_live_bytes_fill(objects: Seq<Option<Object>>, i: int, o: Object, k: int)
    requires
        0 <= i < objects.len(),
        objects[i] is None,
        0 <= k <= objects.len(),
    ensures
        live_bytes_prefix(objects.update(i, Some(o)), k) == live_bytes_prefix(objects, k) + if i
            < k {
            sat_usize(obj_size(o)) as int
        } else {
            0
        },
    decreases k,
{
    if k > 0 {
        lemma_live_bytes_fill(objects, i, o, k - 1);
    }
}

/// Appending a slot adds its charge.
pub proof fn lemma_live_bytes_push(objects: Seq<Option<Object>>, s: Option<Object>)
    ensures
        live_bytes(objects.push(s)) == live_bytes(objects) + match s {
            Some(o) => sat_usize(obj_size(o)) as int,
            None => 0,
        },
{
    lemma_live_bytes_prefix_agree(objects.push(s), objects, objects.len() as int);
    assert(objects.push(s)[objects.len() as int] == s);
}

/// A charge is never negative.
pub proof fn lemma_live_bytes_prefix_nonneg(objects: Seq<Option<Object>>, k: int)
    ensures
        live_bytes_prefix(objects, k) >= 0,
    decreases k,
{
    if k > 0 {
        lemma_live_bytes_prefix_nonneg(objects, k - 1);
    }
}

/// Emptying slots only lowers the charge.
pub proof fn lemma_live_bytes_prefix_le(o1: Seq<Option<Object>>, o2: Seq<Option<Object>>, k: int)
    requires
        forall|i: int| 0 <= i < k && (#[trigger] o1[i]) is Some ==> o1[i] == o2[i],
    ensures
        live_bytes_prefix(o1, k) <= live_bytes_prefix(o2, k),
    decreases k,
{
    if k > 0 {
        lemma_live_bytes_prefix_le(o1, o2, k - 1);
    }
}

/// An indexed slab of heap slots. A slot holds at most one object; its
/// mark bit lives in the parallel `marked` vector. Freed slots are listed
/// in `free` and reused; `interned` maps string contents to their one
/// resolved reference; `gray` is the collector's worklist.
#[derive(Debug)]
pub struct Heap {
    /// The object slots.
    pub objects: Vec<Option<Object>>,
    /// Mark bits, parallel to `objects`.
    pub marked: Vec<bool>,
    /// Indices of empty slots available for reuse.
    pub free: Vec<usize>,
    /// The collector's grey worklist.
    pub gray: Vec<Reference>,
    /// References to the interned strings, contents pairwise distinct.
    pub interned: Vec<Reference>,
    /// Bytes charged for the currently live objects.
    pub bytes_allocated: usize,
    /// Allocation threshold past which collection is wanted.
    pub next_gc: usize,
}

/// One marking step: objects, free list, intern table and byte counters
/// are untouched; marks only grow; the worklist is only extended, every
/// added entry is marked, and every slot newly marked has an added entry.
pub open spec fn mark_step(h0: Heap, h1: Heap) -> bool {
    &&& h1.objects@ == h0.objects@
    &&& h1.free@ == h0.free@
    &&& h1.interned@ == h0.interned@
    &&& h1.bytes_allocated == h0.bytes_allocated
    &&& h1.next_gc == h0.next_gc
    &&& h1.marked@.len() == h0.marked@.len()
    &&& forall|i: int| 0 <= i < h0.marked@.len() && h0.marked@[i] ==> #[trigger] h1.marked@[i]
    &&& h0.gray@.len() <= h1.gray@.len()
    &&& forall|k: int| 0 <= k < h0.gray@.len() ==> (#[trigger] h1.gray@[k]) == h0.gray@[k]
    &&& forall|k: int|
        h0.gray@.len() <= k < h1.gray@.len() ==> marked_at(h1.marked@, #[trigger] h1.gray@[k])
    &&& forall|k: int|
        h0.gray@.len() <= k < h1.gray@.len() ==> !h0.marked@[(#[trigger] h1.gray@[k]).slot as int]
    &&& forall|i: int|
        0 <= i < h1.marked@.len() && #[trigger] h1.marked@[i] && !h0.marked@[i] ==> exists|k: int|
            h0.gray@.len() <= k < h1.gray@.len() && (#[trigger] h1.gray@[k]).slot == i
}

/// How many slots are unmarked: the collector's propagation measure.
pub open spec fn count_unmarked(m: Seq<bool>) -> nat
    decreases m.len(),
{
    if m.len() == 0 {
        0
    } else {
        count_unmarked(m.drop_last()) + if m.last() {
            0nat
        } else {
            1nat
        }
    }
}

/// Growing marks pointwise never raises the unmarked count.
pub proof fn lemma_count_unmarked_le(m0: Seq<bool>, m1: Seq<bool>)
    requires
        m1.len() == m0.len(),
        forall|i: int| 0 <= i < m0.len() && m0[i] ==> #[trigger] m1[i],
    ensures
        count_unmarked(m1) <= count_unmarked(m0),
    decreases m0.len(),
{
    if m0.len() > 0 {
        assert forall|i: int|
            0 <= i < m0.drop_last().len() && m0.drop_last()[i] implies #[trigger] m1.drop_last()[i] by {
            assert(m1[i]);
        }
        lemma_count_unmarked_le(m0.drop_last(), m1.drop_last());
    }
}

/// Newly marking some slot strictly lowers the unmarked count.
pub proof fn lemma_count_unmarked_lt(m0: Seq<bool>, m1: Seq<bool>, i: int)
    requires
        m1.len() == m0.len(),
        forall|i2: int| 0 <= i2 < m0.len() && m0[i2] ==> #[trigger] m1[i2],
        0 <= i < m0.len(),
        !m0[i],
        m1[i],
    ensures
        count_unmarked(m1) < count_unmarked(m0),
    decreases m0.len(),
{
    assert forall|i2: int|
        0 <= i2 < m0.drop_last().len() && m0.drop_last()[i2] implies #[trigger] m1.drop_last()[i2] by {
        assert(m1[i2]);
    }
    if i == m0.len() - 1 {
        lemma_count_unmarked_le(m0.drop_last(), m1.drop_last());
    } else {
        lemma_count_unmarked_lt(m0.drop_last(), m1.drop_last(), i);
    }
}

/// Marking steps compose.
pub proof fn lemma_mark_step_trans(h0: Heap, h1: Heap, h2: Heap)
    requires
        mark_step(h0, h1),
        mark_step(h1, h2),
    ensures
        mark_step(h0, h2),
{
    assert forall|i: int|
        0 <= i < h2.marked@.len() && #[trigger] h2.marked@[i] && !h0.marked@[i] implies exists|
        k: int,
    |
        h0.gray@.len() <= k < h2.gray@.len() && (#[trigger] h2.gray@[k]).slot == i by {
        if h1.marked@[i] {
            let k = choose|k: int|
                h0.gray@.len() <= k < h1.gray@.len() && (#[trigger] h1.gray@[k]).slot == i;
            assert(h2.gray@[k] == h1.gray@[k]);
        } else {
            let k = choose|k: int|
                h1.gray@.len() <= k < h2.gray@.len() && (#[trigger] h2.gray@[k]).slot == i;
            assert(h0.gray@.len() <= k < h2.gray@.len() && h2.gray@[k].slot == i);
        }
    }
    assert forall|k: int|
        h0.gray@.len() <= k < h2.gray@.len() implies marked_at(h2.marked@, #[trigger] h2.gray@[k]) by {
        if k < h1.gray@.len() {
            assert(h2.gray@[k] == h1.gray@[k]);
            assert(marked_at(h1.marked@, h1.gray@[k]));
        }
    }
    assert forall|k: int|
        h0.gray@.len() <= k < h2.gray@.len() implies !h0.marked@[(#[trigger] h2.gray@[k]).slot as int] by {
        if k < h1.gray@.len() {
            assert(h2.gray@[k] == h1.gray@[k]);
            assert(!h0.marked@[h1.gray@[k].slot as int]);
        } else {
            assert(marked_at(h2.marked@, h2.gray@[k]));
            assert(!h1.marked@[h2.gray@[k].slot as int]);
            if h0.marked@[h2.gray@[k].slot as int] {
                assert(h1.marked@[h2.gray@[k].slot as int]);
            }
        }
    }
}

/// Some string in the intern table has content `s`.
pub open spec fn has_interned(h: Heap, s: Seq<char>) -> bool {
    exists|k: int|
        0 <= k < h.interned@.len() && string_at(h.objects@, #[trigger] h.interned@[k]) == s
}

/// Every root's reference is marked in `m`.
pub open spec fn roots_covered(m: Seq<bool>, roots: Seq<Value>) -> bool {
    forall|j: int| 0 <= j < roots.len() ==> value_marked(m, #[trigger] roots[j])
}

/// `m` is closed under tracing: every marked occupied slot has all its
/// object's references marked too.
pub open spec fn closed_under_trace(m: Seq<bool>, objects: Seq<Option<Object>>) -> bool {
    forall|i: int|
        0 <= i < objects.len() && #[trigger] m[i] && objects[i] is Some ==> obj_marked(
            m,
            objects[i]->Some_0,
        )
}

/// Pointwise containment of mark vectors.
pub open spec fn marked_below(m: Seq<bool>, m2: Seq<bool>) -> bool {
    forall|i: int| 0 <= i < m.len() && #[trigger] m[i] ==> 0 <= i < m2.len() && m2[i]
}

/// A fully marked value's reference to slot `i` is marked.
pub proof fn lemma_value_marked_ref_at(m: Seq<bool>, v: Value, i: int)
    requires
        value_marked(m, v),
        value_ref_at(v, i),
    ensures
        0 <= i < m.len() && m[i],
{
}

/// A fully marked object's reference to slot `i` is marked.
pub proof fn lemma_obj_marked_ref_at(m: Seq<bool>, o: Object, i: int)
    requires
        obj_marked(m, o),
        obj_ref_at(o, i),
    ensures
        0 <= i < m.len() && m[i],
{
    match o {
        Object::String(_) => {},
        Object::Function(f) => {
            if f.name.slot != i {
                let j = choose|j: int|
                    0 <= j < f.chunk.constants@.len() && value_ref_at(
                        #[trigger] f.chunk.constants@[j],
                        i,
                    );
                lemma_value_marked_ref_at(m, f.chunk.constants@[j], i);
            }
        },
        Object::Closure(c) => {
            if c.function.slot != i {
                let j = choose|j: int|
                    0 <= j < c.upvalues@.len() && (#[trigger] c.upvalues@[j]).slot == i;
                assert(marked_at(m, c.upvalues@[j]));
            }
        },
        Object::Class(c) => {
            if c.name.slot != i {
                let j = choose|j: int|
                    0 <= j < c.methods@.len() && ((#[trigger] c.methods@[j]).0.slot == i
                        || c.methods@[j].1.slot == i);
                assert(marked_at(m, c.methods@[j].0) && marked_at(m, c.methods@[j].1));
            }
        },
        Object::Instance(inst) => {
            if inst.class.slot != i {
                let j = choose|j: int|
                    0 <= j < inst.fields@.len() && ((#[trigger] inst.fields@[j]).0.slot == i
                        || value_ref_at(inst.fields@[j].1, i));
                if inst.fields@[j].0.slot == i {
                    assert(marked_at(m, inst.fields@[j].0));
                } else {
                    lemma_value_marked_ref_at(m, inst.fields@[j].1, i);
                }
            }
        },
        Object::BoundMethod(b) => {
            if b.method.slot != i {
                lemma_value_marked_ref_at(m, b.receiver, i);
            }
        },
        Object::Upvalue(u) => {
            match u {
                HeapUpvalue::Open(_) => {},
                HeapUpvalue::Closed(v) => {
                    lemma_value_marked_ref_at(m, v, i);
                },
            }
        },
    }
}

impl Heap {
    /// The heap's internal invariant: marks parallel the slots; free-list
    /// entries are distinct empty slots; every object's references
    /// resolve to objects of the kinds it expects; interned references
    /// are strings with pairwise distinct contents.
    pub open spec fn wf(&self) -> bool {
        &&& self.marked@.len() == self.objects@.len()
        &&& self.bytes_allocated == sat_usize(live_bytes(self.objects@))
        &&& forall|k: int|
            0 <= k < self.free@.len() ==> (#[trigger] self.free@[k]) < self.objects@.len()
                && self.objects@[self.free@[k] as int] is None
        &&& forall|k: int, l: int|
            0 <= k < l < self.free@.len() ==> self.free@[k] != self.free@[l]
        &&& forall|i: int|
            0 <= i < self.objects@.len() && (#[trigger] self.objects@[i]) is Some ==> obj_ok(
                self.objects@,
                self.objects@[i]->Some_0,
            )
        &&& forall|k: int|
            0 <= k < self.interned@.len() ==> ref_is(
                self.objects@,
                #[trigger] self.interned@[k],
                Tag::String,
            )
        &&& forall|k: int, l: int|
            0 <= k < l < self.interned@.len() ==> string_at(self.objects@, self.interned@[k])
                != string_at(self.objects@, self.interned@[l])
    }

    /// A fresh, empty heap with the initial collection threshold.
    pub fn new() -> (r: Heap)
        ensures
            r.wf(),
            r.objects@.len() == 0,
            r.free@.len() == 0,
            r.interned@.len() == 0,
            r.bytes_allocated == 0,
            r.next_gc == GC_INITIAL_THRESHOLD,
    {
        Heap {
            objects: Vec::new(),
            marked: Vec::new(),
            free: Vec::new(),
            gray: Vec::new(),
            interned: Vec::new(),
            bytes_allocated: 0,
            next_gc: GC_INITIAL_THRESHOLD,
        }
    }

    /// Whether the trigger policy asks for a collection before the next
    /// allocation.
    pub fn needs_collect(&self) -> (r: bool)
        ensures
            r == (self.bytes_allocated > self.next_gc),
    {
        self.bytes_allocated > self.next_gc
    }

    /// Stores the object in a reused or fresh slot and returns its handle.
    /// Every previously resolved reference still resolves to the same
    /// object. Callers keep the trigger policy: when `needs_collect`
    /// holds, run `collect` first, with every object the new one will
    /// reference reachable from the roots.
    pub fn allocate(&mut self, object: Object) -> (r: Reference)
        requires
            old(self).wf(),
            obj_ok(old(self).objects@, object),
        ensures
            final(self).wf(),
            ref_is(final(self).objects@, r, obj_tag(object)),
            final(self).objects@[r.slot as int] == Some(object),
            old(self).objects@.len() <= final(self).objects@.len(),
            forall|i: int|
                0 <= i < old(self).objects@.len() && (#[trigger] old(self).objects@[i]) is Some
                    ==> final(self).objects@[i] == old(self).objects@[i],
            final(self).interned@ == old(self).interned@,
            final(self).next_gc == old(self).next_gc,
            final(self).bytes_allocated == sat_usize(
                old(self).bytes_allocated + sat_usize(obj_size(object)),
            ),
    {
        let ghost obj_spec = object;
        let tag = object.tag();
        let size = object.get_size();
        self.bytes_allocated = self.bytes_allocated.saturating_add(size);
        let slot_index = match self.free.pop() {
            Some(slot) => {
                self.objects[slot] = Some(object);
                slot
            },
            None => {
                let slot = self.objects.len();
                self.objects.push(Some(object));
                self.marked.push(false);
                slot
            },
        };
        let r = Reference { slot: slot_index, tag };
        proof {
            lemma_live_bytes_prefix_nonneg(old(self).objects@, old(self).objects@.len() as int);
            if self.objects@.len() == old(self).objects@.len() {
                lemma_live_bytes_fill(
                    old(self).objects@,
                    r.slot as int,
                    obj_spec,
                    old(self).objects@.len() as int,
                );
            } else {
                lemma_live_bytes_push(old(self).objects@, Some(obj_spec));
            }
            assert(self.bytes_allocated == sat_usize(live_bytes(self.objects@)));
            lemma_objects_grow_obj_ok(old(self).objects@, self.objects@, object);
            assert forall|i: int|
                0 <= i < self.objects@.len() && (#[trigger] self.objects@[i]) is Some implies obj_ok(
                self.objects@,
                self.objects@[i]->Some_0,
            ) by {
                if i != r.slot {
                    assert(self.objects@[i] == old(self).objects@[i]);
                    assert(obj_ok(old(self).objects@, old(self).objects@[i]->Some_0));
                    lemma_objects_grow_obj_ok(
                        old(self).objects@,
                        self.objects@,
                        old(self).objects@[i]->Some_0,
                    );
                }
            }
            assert forall|k: int|
                0 <= k < self.interned@.len() implies ref_is(
                self.objects@,
                #[trigger] self.interned@[k],
                Tag::String,
            ) && string_at(self.objects@, self.interned@[k]) == string_at(
                old(self).objects@,
                self.interned@[k],
            ) by {
                assert(ref_is(old(self).objects@, self.interned@[k], Tag::String));
            }
        }
        r
    }

    /// Resolves a reference to the object it designates.
    pub fn deref(&self, reference: Reference) -> (o: &Object)
        requires
            ref_ok(self.objects@, reference),
        ensures
            *o == self.objects@[reference.slot as int]->Some_0,
    {
        match &self.objects[reference.slot] {
            Some(o) => o,
            None => unreached(),
        }
    }

    /// Resolves a string reference to its string.
    pub fn deref_string(&self, reference: Reference) -> (s: &String)
        requires
            ref_is(self.objects@, reference, Tag::String),
        ensures
            s@ == string_at(self.objects@, reference),
    {
        match &self.objects[reference.slot] {
            Some(Object::String(s)) => s,
            _ => unreached(),
        }
    }

    /// Resolves a function reference to its function.
    pub fn deref_function(&self, reference: Reference) -> (f: &Function)
        requires
            ref_is(self.objects@, reference, Tag::Function),
        ensures
            *f == self.objects@[reference.slot as int]->Some_0->Function_0,
    {
        match &self.objects[reference.slot] {
            Some(Object::Function(f)) => f,
            _ => unreached(),
        }
    }

    /// Resolves a closure reference to its closure.
    pub fn deref_closure(&self, reference: Reference) -> (c: &crate::object::Closure)
        requires
            ref_is(self.objects@, reference, Tag::Closure),
        ensures
            *c == self.objects@[reference.slot as int]->Some_0->Closure_0,
    {
        match &self.objects[reference.slot] {
            Some(Object::Closure(c)) => c,
            _ => unreached(),
        }
    }

    /// Resolves a class reference to its class.
    pub fn deref_class(&self, reference: Reference) -> (c: &crate::object::Class)
        requires
            ref_is(self.objects@, reference, Tag::Class),
        ensures
            *c == self.objects@[reference.slot as int]->Some_0->Class_0,
    {
        match &self.objects[reference.slot] {
            Some(Object::Class(c)) => c,
            _ => unreached(),
        }
    }

    /// Resolves an instance reference to its instance.
    pub fn deref_instance(&self, reference: Reference) -> (i: &crate::object::Instance)
        requires
            ref_is(self.objects@, reference, Tag::Instance),
        ensures
            *i == self.objects@[reference.slot as int]->Some_0->Instance_0,
    {
        match &self.objects[reference.slot] {
            Some(Object::Instance(i)) => i,
            _ => unreached(),
        }
    }

    /// Resolves a bound-method reference to its bound method.
    pub fn deref_bound_method(&self, reference: Reference) -> (b: &crate::object::BoundMethod)
        requires
            ref_is(self.objects@, reference, Tag::BoundMethod),
        ensures
            *b == self.objects@[reference.slot as int]->Some_0->BoundMethod_0,
    {
        match &self.objects[reference.slot] {
            Some(Object::BoundMethod(b)) => b,
            _ => unreached(),
        }
    }

    /// Whether `reference` resolves on this heap and is of kind `tag`.
    pub fn ref_resolves(&self, reference: Reference, tag: Tag) -> (r: bool)
        ensures
            r == ref_is(self.objects@, reference, tag),
    {
        if reference.slot < self.objects.len() {
            match &self.objects[reference.slot] {
                Some(o) => o.tag() == reference.tag && reference.tag == tag,
                None => false,
            }
        } else {
            false
        }
    }

    /// Whether the value's reference, if any, resolves on this heap to an
    /// object of the kind the variant names.
    pub fn resolves_value(&self, value: &Value) -> (r: bool)
        ensures
            r == value_ok(self.objects@, *value),
    {
        match value {
            Value::BoundMethod(r) => self.ref_resolves(*r, Tag::BoundMethod),
            Value::Closure(r) => self.ref_resolves(*r, Tag::Closure),
            Value::Function(r) => self.ref_resolves(*r, Tag::Function),
            Value::Instance(r) => self.ref_resolves(*r, Tag::Instance),
            Value::String(r) => self.ref_resolves(*r, Tag::String),
            Value::Class(r) => self.ref_resolves(*r, Tag::Class),
            _ => true,
        }
    }

    /// Returns the one reference for this string content, allocating and
    /// recording the string only if no interned string already has equal
    /// bytes.
    pub fn intern(&mut self, string: String) -> (r: Reference)
        requires
            old(self).wf(),
        ensures
            final(self).wf(),
            ref_is(final(self).objects@, r, Tag::String),
            string_at(final(self).objects@, r) == string@,
            exists|k: int|
                0 <= k < final(self).interned@.len() && (#[trigger] final(self).interned@[k]) == r,
            if has_interned(*old(self), string@) {
                *final(self) == *old(self)
            } else {
                &&& final(self).interned@ == old(self).interned@.push(r)
                &&& old(self).objects@.len() <= final(self).objects@.len()
                &&& forall|i: int|
                    0 <= i < old(self).objects@.len() && (#[trigger] old(self).objects@[i]) is Some
                        ==> final(self).objects@[i] == old(self).objects@[i]
                &&& final(self).objects@[r.slot as int] == Some(Object::String(string))
            },
    {
        let mut k: usize = 0;
        while k < self.interned.len()
            invariant
                *self == *old(self),
                old(self).wf(),
                k <= self.interned@.len(),
                forall|j: int|
                    0 <= j < k ==> string_at(self.objects@, #[trigger] self.interned@[j])
                        != string@,
            decreases self.interned@.len() - k,
        {
            let candidate = self.interned[k];
            let existing = self.deref_string(candidate);
            if existing.eq(&string) {
                return candidate;
            }
            k += 1;
        }
        assert(!has_interned(*old(self), string@));
        let r = self.allocate(Object::String(string));
        self.interned.push(r);
        proof {
            assert(self.interned@[self.interned@.len() - 1] == r);
            assert forall|k1: int, l1: int|
                0 <= k1 < l1 < self.interned@.len() implies string_at(
                self.objects@,
                self.interned@[k1],
            ) != string_at(self.objects@, self.interned@[l1]) by {
                if l1 < self.interned@.len() - 1 {
                    assert(string_at(old(self).objects@, old(self).interned@[k1]) != string_at(
                        old(self).objects@,
                        old(self).interned@[l1],
                    ));
                }
            }
        }
        r
    }

    /// Sets the slot's mark bit; a slot marked for the first time joins
    /// the grey worklist.
    pub fn mark_object(&mut self, reference: Reference)
        requires
            reference.slot < old(self).marked@.len(),
        ensures
            mark_step(*old(self), *final(self)),
            marked_at(final(self).marked@, reference),
            forall|i: int|
                0 <= i < final(self).marked@.len() && (#[trigger] final(self).marked@[i]) && !old(
                    self,
                ).marked@[i] ==> i == reference.slot,
    {
        if !self.marked[reference.slot] {
            self.marked[reference.slot] = true;
            self.gray.push(reference);
            proof {
                assert forall|i: int|
                    0 <= i < self.marked@.len() && #[trigger] self.marked@[i] && !old(
                        self,
                    ).marked@[i] implies exists|k: int|
                    old(self).gray@.len() <= k < self.gray@.len() && (#[trigger] self.gray@[k]).slot
                        == i by {
                    assert(self.gray@[old(self).gray@.len() as int] == reference);
                }
            }
        }
    }

    /// Marks the reference the value holds, if any.
    pub fn mark_value(&mut self, value: Value)
        requires
            value_in_bounds(value, old(self).marked@.len() as nat),
        ensures
            mark_step(*old(self), *final(self)),
            value_marked(final(self).marked@, value),
            forall|i: int|
                0 <= i < final(self).marked@.len() && (#[trigger] final(self).marked@[i]) && !old(
                    self,
                ).marked@[i] ==> crate::value::value_ref_at(value, i),
    {
        value.trace(self);
    }

    /// Mark-sweep collection from the given roots. Every object a root
    /// resolves to survives, unchanged, and no object is created or
    /// mutated; conversely a slot survives only if every mark set that
    /// covers the roots and is closed under tracing contains it, so
    /// everything unreachable from the roots is freed. The byte count is
    /// recomputed during the sweep from the survivors' charges, and the
    /// threshold is reset from it.
    pub fn collect(&mut self, roots: &Vec<Value>)
        requires
            old(self).wf(),
            forall|j: int|
                0 <= j < roots@.len() ==> value_ok(old(self).objects@, #[trigger] roots@[j]),
        ensures
            final(self).wf(),
            final(self).objects@.len() == old(self).objects@.len(),
            forall|i: int|
                0 <= i < final(self).objects@.len() && (#[trigger] final(self).objects@[i]) is Some
                    ==> final(self).objects@[i] == old(self).objects@[i],
            forall|j: int|
                0 <= j < roots@.len() ==> value_ok(final(self).objects@, #[trigger] roots@[j]),
            forall|m2: Seq<bool>|
                m2.len() == old(self).objects@.len() && #[trigger] roots_covered(m2, roots@)
                    && closed_under_trace(m2, old(self).objects@) ==> forall|i: int|
                    0 <= i < final(self).objects@.len()
                        && (#[trigger] final(self).objects@[i]) is Some ==> m2[i],
            final(self).bytes_allocated == sat_usize(live_bytes(final(self).objects@)),
            final(self).bytes_allocated <= old(self).bytes_allocated,
            final(self).next_gc == sat_usize(
                final(self).bytes_allocated as int * GC_GROWTH_FACTOR as int,
            ),
    {
        // Phase 1: clear every mark bit and the worklist.
        let mut i: usize = 0;
        while i < self.marked.len()
            invariant
                old(self).wf(),
                i <= self.marked@.len(),
                self.objects@ == old(self).objects@,
                self.free@ == old(self).free@,
                self.interned@ == old(self).interned@,
                self.bytes_allocated == old(self).bytes_allocated,
                self.next_gc == old(self).next_gc,
                self.marked@.len() == old(self).marked@.len(),
                forall|p: int| 0 <= p < i ==> !(#[trigger] self.marked@[p]),
            decreases self.marked@.len() - i,
        {
            self.marked[i] = false;
            i += 1;
        }
        self.gray = Vec::new();
        let ghost cleared = *self;

        // Phase 2: mark the roots.
        let mut j: usize = 0;
        while j < roots.len()
            invariant
                old(self).wf(),
                cleared.wf(),
                cleared.objects@ == old(self).objects@,
                cleared.gray@.len() == 0,
                forall|p: int| 0 <= p < cleared.marked@.len() ==> !(#[trigger] cleared.marked@[p]),
                forall|j2: int|
                    0 <= j2 < roots@.len() ==> value_ok(old(self).objects@, #[trigger] roots@[j2]),
                j <= roots@.len(),
                mark_step(cleared, *self),
                forall|j2: int|
                    0 <= j2 < j ==> value_marked(self.marked@, #[trigger] roots@[j2]),
                self.objects@ == old(self).objects@,
                forall|m2: Seq<bool>|
                    m2.len() == self.marked@.len() && #[trigger] roots_covered(m2, roots@)
                        && closed_under_trace(m2, old(self).objects@) ==> marked_below(
                        self.marked@,
                        m2,
                    ),
            decreases roots@.len() - j,
        {
            let ghost before = *self;
            let root = roots[j];
            self.mark_value(root);
            proof {
                lemma_mark_step_trans(cleared, before, *self);
                assert forall|m2: Seq<bool>|
                    m2.len() == self.marked@.len() && #[trigger] roots_covered(m2, roots@)
                        && closed_under_trace(m2, old(self).objects@) implies marked_below(
                    self.marked@,
                    m2,
                ) by {
                    assert(marked_below(before.marked@, m2));
                    assert forall|i: int|
                        0 <= i < self.marked@.len() && #[trigger] self.marked@[i] implies 0 <= i
                        < m2.len() && m2[i] by {
                        if !before.marked@[i] {
                            assert(value_ref_at(roots@[j as int], i));
                            assert(value_marked(m2, roots@[j as int]));
                            lemma_value_marked_ref_at(m2, roots@[j as int], i);
                        }
                    }
                }
            }
            j += 1;
        }

        // Phase 3: propagate marks over the grey worklist until it empties.
        while self.gray.len() > 0
            invariant
                old(self).wf(),
                self.objects@ == old(self).objects@,
                self.free@ == old(self).free@,
                self.interned@ == old(self).interned@,
                self.bytes_allocated == old(self).bytes_allocated,
                self.next_gc == old(self).next_gc,
                self.marked@.len() == self.objects@.len(),
                forall|k: int|
                    0 <= k < self.gray@.len() ==> marked_at(self.marked@, #[trigger] self.gray@[k]),
                forall|i2: int|
                    0 <= i2 < self.objects@.len() && #[trigger] self.marked@[i2]
                        && self.objects@[i2] is Some ==> obj_marked(
                        self.marked@,
                        self.objects@[i2]->Some_0,
                    ) || exists|k: int|
                        0 <= k < self.gray@.len() && (#[trigger] self.gray@[k]).slot == i2,
                forall|j2: int|
                    0 <= j2 < roots@.len() ==> value_marked(self.marked@, #[trigger] roots@[j2]),
                forall|m2: Seq<bool>|
                    m2.len() == self.marked@.len() && #[trigger] roots_covered(m2, roots@)
                        && closed_under_trace(m2, old(self).objects@) ==> marked_below(
                        self.marked@,
                        m2,
                    ),
            decreases count_unmarked(self.marked@), self.gray@.len(),
        {
            let ghost entry = *self;
            let popped = self.gray.pop();
            match popped {
                Some(r) => {
                    let ghost g1 = *self;
                    proof {
                        assert(marked_at(entry.marked@, r));
                    }
                    let mut taken: Option<Object> = None;
                    core::mem::swap(&mut taken, &mut self.objects[r.slot]);
                    match taken {
                        Some(obj) => {
                            let ghost g2 = *self;
                            let ghost obj_spec = obj;
                            proof {
                                assert(entry.objects@[r.slot as int] == Some(obj));
                                assert(obj_ok(entry.objects@, obj));
                                lemma_obj_ok_in_bounds(entry.objects@, obj);
                            }
                            obj.trace(self);
                            let ghost g3 = *self;
                            self.objects[r.slot] = Some(obj);
                            proof {
                                assert(self.objects@ =~= entry.objects@);
                                lemma_propagate_step(entry, g1, g2, g3, *self, r, obj_spec);
                                assert(count_unmarked(self.marked@) < count_unmarked(
                                    entry.marked@,
                                ) || (count_unmarked(self.marked@) == count_unmarked(entry.marked@)
                                    && self.gray@.len() < entry.gray@.len()));
                                assert forall|m2: Seq<bool>|
                                    m2.len() == self.marked@.len() && #[trigger] roots_covered(
                                        m2,
                                        roots@,
                                    ) && closed_under_trace(m2, old(self).objects@) implies marked_below(
                                    self.marked@,
                                    m2,
                                ) by {
                                    assert(marked_below(entry.marked@, m2));
                                    assert forall|i: int|
                                        0 <= i < self.marked@.len()
                                            && #[trigger] self.marked@[i] implies 0 <= i
                                        < m2.len() && m2[i] by {
                                        if !entry.marked@[i] {
                                            assert(obj_ref_at(obj_spec, i));
                                            assert(marked_at(entry.marked@, r));
                                            assert(m2[r.slot as int]);
                                            assert(obj_marked(m2, obj_spec));
                                            lemma_obj_marked_ref_at(m2, obj_spec, i);
                                        }
                                    }
                                }
                            }
                        },
                        None => {
                            proof {
                                assert(self.objects@ =~= entry.objects@);
                                assert(self.marked@ =~= entry.marked@);
                                assert(count_unmarked(self.marked@) == count_unmarked(
                                    entry.marked@,
                                ));
                                assert(self.gray@.len() < entry.gray@.len());
                                assert forall|m2: Seq<bool>|
                                    m2.len() == self.marked@.len() && #[trigger] roots_covered(
                                        m2,
                                        roots@,
                                    ) && closed_under_trace(m2, old(self).objects@) implies marked_below(
                                    self.marked@,
                                    m2,
                                ) by {
                                    assert(marked_below(entry.marked@, m2));
                                }
                                assert forall|i2: int|
                                    0 <= i2 < self.objects@.len() && #[trigger] self.marked@[i2]
                                        && self.objects@[i2] is Some implies obj_marked(
                                    self.marked@,
                                    self.objects@[i2]->Some_0,
                                ) || exists|k: int|
                                    0 <= k < self.gray@.len() && (#[trigger] self.gray@[k]).slot
                                        == i2 by {
                                    if !obj_marked(self.marked@, self.objects@[i2]->Some_0) {
                                        let k = choose|k: int|
                                            0 <= k < entry.gray@.len() && (#[trigger] entry.gray@[k]).slot
                                                == i2;
                                        if k < entry.gray@.len() - 1 {
                                            assert(self.gray@[k] == entry.gray@[k]);
                                        } else {
                                            assert(entry.gray@[k] == r);
                                            assert(self.objects@[i2] is None);
                                        }
                                    }
                                }
                            }
                        },
                    }
                },
                None => {},
            }
        }
        let ghost ms = self.marked@;
        let ghost orig = old(self).objects@;
        proof {
            assert forall|m2: Seq<bool>|
                m2.len() == orig.len() && #[trigger] roots_covered(m2, roots@)
                    && closed_under_trace(m2, orig) implies marked_below(ms, m2) by {}
        }

        // Phase 4: sweep every unmarked slot, clearing survivors' marks,
        // and recompute the byte count from the survivors' charges.
        let n = self.objects.len();
        let mut live: usize = 0;
        let mut s: usize = 0;
        while s < n
            invariant
                old(self).wf(),
                orig == old(self).objects@,
                n == orig.len(),
                s <= n,
                ms.len() == n,
                self.objects@.len() == n,
                self.marked@.len() == n,
                self.interned@ == old(self).interned@,
                self.next_gc == old(self).next_gc,
                self.bytes_allocated == old(self).bytes_allocated,
                live == sat_usize(live_bytes_prefix(self.objects@, s as int)),
                forall|p: int|
                    0 <= p < s && ms[p] ==> (#[trigger] self.objects@[p]) == orig[p],
                forall|p: int|
                    0 <= p < s && !ms[p] ==> (#[trigger] self.objects@[p]) is None,
                forall|p: int| s <= p < n ==> (#[trigger] self.objects@[p]) == orig[p],
                forall|p: int| s <= p < n ==> (#[trigger] self.marked@[p]) == ms[p],
                forall|p: int| 0 <= p < s ==> !(#[trigger] self.marked@[p]),
                forall|p: int|
                    0 <= p < n && #[trigger] ms[p] && orig[p] is Some ==> obj_marked(
                        ms,
                        orig[p]->Some_0,
                    ),
                forall|k: int|
                    0 <= k < self.free@.len() ==> (#[trigger] self.free@[k]) < n
                        && self.objects@[self.free@[k] as int] is None,
                forall|k: int, l: int|
                    0 <= k < l < self.free@.len() ==> self.free@[k] != self.free@[l],
            decreases n - s,
        {
            let ghost row = self.objects@;
            if self.marked[s] {
                self.marked[s] = false;
                let addition: usize = match &self.objects[s] {
                    Some(o) => o.get_size(),
                    None => 0,
                };
                proof {
                    lemma_live_bytes_prefix_nonneg(self.objects@, s as int);
                }
                live = live.saturating_add(addition);
            } else {
                let mut taken: Option<Object> = None;
                core::mem::swap(&mut taken, &mut self.objects[s]);
                match taken {
                    Some(_) => {
                        self.free.push(s);
                    },
                    None => {},
                }
                proof {
                    lemma_live_bytes_prefix_agree(self.objects@, row, s as int);
                }
            }
            s += 1;
        }
        self.bytes_allocated = live;
        proof {
            assert(self.bytes_allocated == sat_usize(live_bytes(self.objects@)));
            lemma_live_bytes_prefix_le(self.objects@, orig, orig.len() as int);
            assert(self.bytes_allocated <= old(self).bytes_allocated);
        }

        // Rebuild the intern table from the surviving strings.
        let ghost swept = *self;
        let mut kept: Vec<Reference> = Vec::new();
        let mut k: usize = 0;
        while k < self.interned.len()
            invariant
                old(self).wf(),
                orig == old(self).objects@,
                *self == swept,
                swept.interned@ == old(self).interned@,
                swept.objects@.len() == orig.len(),
                forall|p: int|
                    0 <= p < swept.objects@.len() && (#[trigger] swept.objects@[p]) is Some
                        ==> swept.objects@[p] == orig[p],
                k <= self.interned@.len(),
                forall|q: int|
                    0 <= q < kept@.len() ==> exists|k0: int|
                        0 <= k0 < k && (#[trigger] kept@[q]) == (#[trigger] self.interned@[k0]),
                forall|q: int|
                    0 <= q < kept@.len() ==> ref_is(self.objects@, #[trigger] kept@[q], Tag::String),
                forall|q1: int, q2: int|
                    0 <= q1 < q2 < kept@.len() ==> string_at(self.objects@, kept@[q1]) != string_at(
                        self.objects@,
                        kept@[q2],
                    ),
            decreases self.interned@.len() - k,
        {
            let candidate = self.interned[k];
            if candidate.slot < self.objects.len() {
                let keep = match &self.objects[candidate.slot] {
                    Some(Object::String(_)) => true,
                    _ => false,
                };
                if keep {
                    proof {
                        assert(self.interned@ == old(self).interned@);
                        assert(ref_is(old(self).objects@, old(self).interned@[k as int], Tag::String));
                        assert(self.objects@[candidate.slot as int] == orig[candidate.slot as int]);
                        assert(string_at(self.objects@, candidate) == string_at(orig, candidate));
                        assert forall|q: int|
                            0 <= q < kept@.len() implies string_at(self.objects@, kept@[q])
                            != string_at(self.objects@, candidate) by {
                            let k0 = choose|k0: int|
                                0 <= k0 < k && kept@[q] == (#[trigger] self.interned@[k0]);
                            assert(ref_is(old(self).objects@, old(self).interned@[k0], Tag::String));
                            assert(string_at(old(self).objects@, old(self).interned@[k0])
                                != string_at(old(self).objects@, old(self).interned@[k as int]));
                            assert(ref_is(self.objects@, kept@[q], Tag::String));
                            assert(self.objects@[kept@[q].slot as int] == orig[kept@[q].slot as int]);
                            assert(string_at(self.objects@, kept@[q]) == string_at(orig, kept@[q]));
                            assert(kept@[q] == old(self).interned@[k0]);
                            assert(candidate == old(self).interned@[k as int]);
                            assert(string_at(orig, kept@[q]) != string_at(orig, candidate));
                        }
                    }
                    kept.push(candidate);
                }
            }
            k += 1;
        }
        self.interned = kept;
        self.next_gc = mul_saturating(self.bytes_allocated, GC_GROWTH_FACTOR);

        proof {
            // Well-formedness of the survivors.
            assert forall|i2: int|
                0 <= i2 < self.objects@.len() && (#[trigger] self.objects@[i2]) is Some implies obj_ok(
                self.objects@,
                self.objects@[i2]->Some_0,
            ) && self.objects@[i2] == orig[i2] by {
                assert(ms[i2] && orig[i2] is Some);
                lemma_sweep_obj_ok(orig, self.objects@, ms, orig[i2]->Some_0);
            }
            // Roots still resolve.
            assert forall|j2: int|
                0 <= j2 < roots@.len() implies value_ok(self.objects@, #[trigger] roots@[j2]) by {
                assert(value_marked(ms, roots@[j2]));
                lemma_sweep_value_ok(orig, self.objects@, ms, roots@[j2]);
            }
            assert(self.bytes_allocated == sat_usize(live_bytes(self.objects@)));
            // Only slots marked from the roots survive.
            assert forall|m2: Seq<bool>|
                m2.len() == orig.len() && #[trigger] roots_covered(m2, roots@)
                    && closed_under_trace(m2, orig) implies forall|i: int|
                0 <= i < self.objects@.len() && (#[trigger] self.objects@[i]) is Some
                    ==> m2[i] by {
                assert(marked_below(ms, m2));
                assert forall|i: int|
                    0 <= i < self.objects@.len() && (#[trigger] self.objects@[i]) is Some implies m2[i] by {
                    assert(ms[i]);
                }
            }
        }
    }
}

/// Growing the slab (filling an empty slot or appending) keeps every
/// object's references resolving as before.
pub proof fn lemma_objects_grow_obj_ok(
    objects0: Seq<Option<Object>>,
    objects1: Seq<Option<Object>>,
    o: Object,
)
    requires
        objects0.len() <= objects1.len(),
        forall|i: int|
            0 <= i < objects0.len() && (#[trigger] objects0[i]) is Some ==> objects1[i]
                == objects0[i],
        obj_ok(objects0, o),
    ensures
        obj_ok(objects1, o),
{
}

/// A well-formed object's references all point below the slab's length.
pub proof fn lemma_obj_ok_in_bounds(objects: Seq<Option<Object>>, o: Object)
    requires
        obj_ok(objects, o),
    ensures
        obj_in_bounds(o, objects.len()),
{
}

/// Marks only grow across a marking step, so an already fully marked
/// object stays fully marked.
pub proof fn lemma_obj_marked_monotone(m0: Seq<bool>, m1: Seq<bool>, o: Object)
    requires
        m1.len() == m0.len(),
        forall|i: int| 0 <= i < m0.len() && m0[i] ==> #[trigger] m1[i],
        obj_marked(m0, o),
    ensures
        obj_marked(m1, o),
{
}

/// One propagation step preserves the worklist loop's invariants: `entry`
/// is the state before the pop, `g1` after the pop, `g2` after the traced
/// object was taken out, `g3` after tracing it, and `h` the final state
/// with it restored.
proof fn lemma_propagate_step(
    entry: Heap,
    g1: Heap,
    g2: Heap,
    g3: Heap,
    h: Heap,
    r: Reference,
    obj: Object,
)
    requires
        entry.gray@.len() > 0,
        r == entry.gray@.last(),
        g1.gray@ == entry.gray@.subrange(0, entry.gray@.len() - 1),
        g1.objects@ == entry.objects@,
        g1.marked@ == entry.marked@,
        g2.gray@ == g1.gray@,
        g2.marked@ == g1.marked@,
        h.gray@ == g3.gray@,
        h.marked@ == g3.marked@,
        h.objects@ == entry.objects@,
        r.slot < entry.objects@.len(),
        entry.objects@[r.slot as int] == Some(obj),
        mark_step(g2, g3),
        obj_marked(g3.marked@, obj),
        entry.marked@.len() == entry.objects@.len(),
        forall|k: int|
            0 <= k < entry.gray@.len() ==> marked_at(entry.marked@, #[trigger] entry.gray@[k]),
        forall|i2: int|
            0 <= i2 < entry.objects@.len() && #[trigger] entry.marked@[i2]
                && entry.objects@[i2] is Some ==> obj_marked(
                entry.marked@,
                entry.objects@[i2]->Some_0,
            ) || exists|k: int|
                0 <= k < entry.gray@.len() && (#[trigger] entry.gray@[k]).slot == i2,
    ensures
        forall|k: int| 0 <= k < h.gray@.len() ==> marked_at(h.marked@, #[trigger] h.gray@[k]),
        forall|i2: int|
            0 <= i2 < h.objects@.len() && #[trigger] h.marked@[i2] && h.objects@[i2] is Some
                ==> obj_marked(h.marked@, h.objects@[i2]->Some_0) || exists|k: int|
                0 <= k < h.gray@.len() && (#[trigger] h.gray@[k]).slot == i2,
        count_unmarked(h.marked@) < count_unmarked(entry.marked@) || (count_unmarked(h.marked@)
            == count_unmarked(entry.marked@) && h.gray@.len() < entry.gray@.len()),
{
    if exists|i2: int|
        0 <= i2 < entry.marked@.len() && !entry.marked@[i2] && #[trigger] h.marked@[i2] {
        let i2 = choose|i2: int|
            0 <= i2 < entry.marked@.len() && !entry.marked@[i2] && #[trigger] h.marked@[i2];
        lemma_count_unmarked_lt(entry.marked@, h.marked@, i2);
    } else {
        assert(h.marked@ =~= entry.marked@);
        assert(count_unmarked(h.marked@) == count_unmarked(entry.marked@));
        assert(h.gray@.len() < entry.gray@.len()) by {
            if h.gray@.len() >= entry.gray@.len() {
                let k = entry.gray@.len() - 1;
                assert(g2.gray@.len() == entry.gray@.len() - 1);
                assert(marked_at(g3.marked@, g3.gray@[k]));
                assert(!g2.marked@[g3.gray@[k].slot as int]);
            }
        }
    }
    assert forall|k: int| 0 <= k < h.gray@.len() implies marked_at(
        h.marked@,
        #[trigger] h.gray@[k],
    ) by {
        if k < g2.gray@.len() {
            assert(h.gray@[k] == g2.gray@[k]);
            assert(g2.gray@[k] == entry.gray@[k]);
            assert(marked_at(entry.marked@, entry.gray@[k]));
        }
    }
    assert forall|i2: int|
        0 <= i2 < h.objects@.len() && #[trigger] h.marked@[i2] && h.objects@[i2] is Some implies obj_marked(
        h.marked@,
        h.objects@[i2]->Some_0,
    ) || exists|k: int| 0 <= k < h.gray@.len() && (#[trigger] h.gray@[k]).slot == i2 by {
        if entry.marked@[i2] {
            if obj_marked(entry.marked@, entry.objects@[i2]->Some_0) {
                lemma_obj_marked_monotone(entry.marked@, h.marked@, entry.objects@[i2]->Some_0);
            } else {
                let k = choose|k: int|
                    0 <= k < entry.gray@.len() && (#[trigger] entry.gray@[k]).slot == i2;
                if k < entry.gray@.len() - 1 {
                    assert(h.gray@[k] == g2.gray@[k]);
                    assert(g2.gray@[k] == entry.gray@[k]);
                } else {
                    assert(entry.gray@[k] == r);
                    assert(i2 == r.slot);
                    assert(h.objects@[i2]->Some_0 == obj);
                }
            }
        } else {
            let k = choose|k: int|
                g2.gray@.len() <= k < h.gray@.len() && (#[trigger] h.gray@[k]).slot == i2;
            assert(0 <= k < h.gray@.len() && h.gray@[k].slot == i2);
        }
    }
}

/// After a sweep that keeps exactly the marked slots, a surviving
/// object's references still resolve: marking closed over tracing, so
/// everything it points at was marked and kept.
pub proof fn lemma_sweep_ref_ok(
    orig: Seq<Option<Object>>,
    objects1: Seq<Option<Object>>,
    ms: Seq<bool>,
    r: Reference,
)
    requires
        ms.len() == orig.len(),
        objects1.len() == orig.len(),
        forall|p: int| 0 <= p < orig.len() && #[trigger] ms[p] ==> objects1[p] == orig[p],
        ref_ok(orig, r),
        marked_at(ms, r),
    ensures
        ref_ok(objects1, r),
        objects1[r.slot as int] == orig[r.slot as int],
{
}

/// Sweeping keeps a marked, well-formed value resolving.
pub proof fn lemma_sweep_value_ok(
    orig: Seq<Option<Object>>,
    objects1: Seq<Option<Object>>,
    ms: Seq<bool>,
    v: Value,
)
    requires
        ms.len() == orig.len(),
        objects1.len() == orig.len(),
        forall|p: int| 0 <= p < orig.len() && #[trigger] ms[p] ==> objects1[p] == orig[p],
        value_ok(orig, v),
        value_marked(ms, v),
    ensures
        value_ok(objects1, v),
{
    match value_ref(v) {
        Some(r) => {
            lemma_sweep_ref_ok(orig, objects1, ms, r);
        },
        None => {},
    }
}

/// Sweeping keeps a marked, well-formed object's references resolving.
pub proof fn lemma_sweep_obj_ok(
    orig: Seq<Option<Object>>,
    objects1: Seq<Option<Object>>,
    ms: Seq<bool>,
    o: Object,
)
    requires
        ms.len() == orig.len(),
        objects1.len() == orig.len(),
        forall|p: int| 0 <= p < orig.len() && #[trigger] ms[p] ==> objects1[p] == orig[p],
        obj_ok(orig, o),
        obj_marked(ms, o),
    ensures
        obj_ok(objects1, o),
{
    match o {
        Object::String(_) => {},
        Object::Function(f) => {
            lemma_sweep_ref_ok(orig, objects1, ms, f.name);
            assert forall|j: int| 0 <= j < f.chunk.constants@.len() implies value_ok(
                objects1,
                #[trigger] f.chunk.constants@[j],
            ) by {
                lemma_sweep_value_ok(orig, objects1, ms, f.chunk.constants@[j]);
            }
        },
        Object::Closure(c) => {
            lemma_sweep_ref_ok(orig, objects1, ms, c.function);
            assert forall|j: int| 0 <= j < c.upvalues@.len() implies ref_is(
                objects1,
                #[trigger] c.upvalues@[j],
                Tag::Upvalue,
            ) by {
                lemma_sweep_ref_ok(orig, objects1, ms, c.upvalues@[j]);
            }
        },
        Object::Class(c) => {
            lemma_sweep_ref_ok(orig, objects1, ms, c.name);
            assert forall|j: int|
                0 <= j < c.methods@.len() implies ref_is(
                objects1,
                (#[trigger] c.methods@[j]).0,
                Tag::String,
            ) && ref_is(objects1, c.methods@[j].1, Tag::Closure) by {
                lemma_sweep_ref_ok(orig, objects1, ms, c.methods@[j].0);
                lemma_sweep_ref_ok(orig, objects1, ms, c.methods@[j].1);
            }
        },
        Object::Instance(inst) => {
            lemma_sweep_ref_ok(orig, objects1, ms, inst.class);
            assert forall|j: int|
                0 <= j < inst.fields@.len() implies ref_is(
                objects1,
                (#[trigger] inst.fields@[j]).0,
                Tag::String,
            ) && value_ok(objects1, inst.fields@[j].1) by {
                lemma_sweep_ref_ok(orig, objects1, ms, inst.fields@[j].0);
                lemma_sweep_value_ok(orig, objects1, ms, inst.fields@[j].1);
            }
        },
        Object::BoundMethod(b) => {
            lemma_sweep_value_ok(orig, objects1, ms, b.receiver);
            lemma_sweep_ref_ok(orig, objects1, ms, b.method);
        },
        Object::Upvalue(u) => {
            match u {
                crate::object::HeapUpvalue::Open(_) => {},
                crate::object::HeapUpvalue::Closed(v) => {
                    lemma_sweep_value_ok(orig, objects1, ms, v);
                },
            }
        },
    }
}

/// Two interned references with equal contents are the same reference:
/// the intern table's contents are pairwise distinct.
pub proof fn lemma_interned_unique(h: Heap, r1: Reference, r2: Reference)
    requires
        h.wf(),
        exists|k: int| 0 <= k < h.interned@.len() && (#[trigger] h.interned@[k]) == r1,
        exists|k: int| 0 <= k < h.interned@.len() && (#[trigger] h.interned@[k]) == r2,
        string_at(h.objects@, r1) == string_at(h.objects@, r2),
    ensures
        r1 == r2,
{
    let k1 = choose|k: int| 0 <= k < h.interned@.len() && (#[trigger] h.interned@[k]) == r1;
    let k2 = choose|k: int| 0 <= k < h.interned@.len() && (#[trigger] h.interned@[k]) == r2;
    if k1 < k2 {
        assert(string_at(h.objects@, h.interned@[k1]) != string_at(h.objects@, h.interned@[k2]));
    } else if k2 < k1 {
        assert(string_at(h.objects@, h.interned@[k2]) != string_at(h.objects@, h.interned@[k1]));
    }
}

/// Equality of two interned string values is equality of their bytes:
/// values compare references by slot, and interning gives equal contents
/// one reference.
pub proof fn lemma_string_value_equality(h: Heap, r1: Reference, r2: Reference)
    requires
        h.wf(),
        exists|k: int| 0 <= k < h.interned@.len() && (#[trigger] h.interned@[k]) == r1,
        exists|k: int| 0 <= k < h.interned@.len() && (#[trigger] h.interned@[k]) == r2,
    ensures
        (Value::String(r1) == Value::String(r2)) <==> (string_at(h.objects@, r1) == string_at(
            h.objects@,
            r2,
        )),
{
    if string_at(h.objects@, r1) == string_at(h.objects@, r2) {
        lemma_interned_unique(h, r1, r2);
    }
}

} // verus!
