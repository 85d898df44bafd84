use lox_runtime::function::Function;
use lox_runtime::heap::GC_INITIAL_THRESHOLD;
use lox_runtime::heap::Heap;
use lox_runtime::object::BoundMethod;
use lox_runtime::object::Class;
use lox_runtime::object::Closure;
use lox_runtime::object::Instance;
use lox_runtime::object::Object;
use lox_runtime::value::NativeFunction;
use lox_runtime::value::Value;

#[test]
fn interning_maps_equal_bytes_to_one_reference() {
    let mut heap = Heap::new();
    let first = heap.intern(String::from("answer"));
    let second = heap.intern(String::from("answer"));
    let other = heap.intern(String::from("question"));
    assert_eq!(first, second);
    assert_ne!(first, other);
    assert_eq!(heap.deref_string(first), "answer");
    assert_eq!(heap.deref_string(other), "question");
}

#[test]
fn string_values_compare_as_their_bytes_after_interning() {
    let mut heap = Heap::new();
    let a = Value::String(heap.intern(String::from("same")));
    let b = Value::String(heap.intern(String::from("same")));
    let c = Value::String(heap.intern(String::from("different")));
    assert_eq!(a, b);
    assert_ne!(a, c);
}

#[test]
fn is_falsey_only_for_nil_and_false() {
    assert!(Value::Nil.is_falsey());
    assert!(Value::Boolean(false).is_falsey());
    assert!(!Value::Boolean(true).is_falsey());
    assert!(!Value::Number(0u64).is_falsey());
    assert!(!Value::NativeFunction(NativeFunction { id: 0, arity: 0 }).is_falsey());
}

#[test]
fn function_new_starts_empty() {
    let mut heap = Heap::new();
    let name = heap.intern(String::from("fib"));
    let function = Function::new(name);
    assert_eq!(function.arity, 0);
    assert!(function.chunk.instructions.is_empty());
    assert!(function.chunk.constants.is_empty());
    assert!(function.upvalues.is_empty());
    assert_eq!(function.name, name);
}

#[test]
fn function_format_names_scripts_and_functions() {
    let mut heap = Heap::new();
    let script = Function::new(heap.intern(String::from("")));
    assert_eq!(script.format(&heap), "<script>");
    let named = Function::new(heap.intern(String::from("fib")));
    assert_eq!(named.format(&heap), "<fn fib>");
}

#[test]
fn value_format_resolves_through_the_heap() {
    let mut heap = Heap::new();
    assert_eq!(Value::Nil.format(&heap).unwrap(), "nil");
    assert_eq!(Value::Boolean(true).format(&heap).unwrap(), "true");
    assert_eq!(Value::Boolean(false).format(&heap).unwrap(), "false");
    let native = Value::NativeFunction(NativeFunction { id: 3, arity: 1 });
    assert_eq!(native.format(&heap).unwrap(), "<native fn>");
    assert!(Value::Number(0u64).format(&heap).is_none());

    let text = Value::String(heap.intern(String::from("hello")));
    assert_eq!(text.format(&heap).unwrap(), "hello");

    let name = heap.intern(String::from("greet"));
    let function_ref = heap.allocate(Object::Function(Function::new(name)));
    assert_eq!(Value::Function(function_ref).format(&heap).unwrap(), "<fn greet>");

    let closure_ref =
        heap.allocate(Object::Closure(Closure { function: function_ref, upvalues: Vec::new() }));
    assert_eq!(Value::Closure(closure_ref).format(&heap).unwrap(), "<fn greet>");

    let class_name = heap.intern(String::from("Point"));
    let class_ref =
        heap.allocate(Object::Class(Class { name: class_name, methods: Vec::new() }));
    assert_eq!(Value::Class(class_ref).format(&heap).unwrap(), "Point");

    let instance_ref =
        heap.allocate(Object::Instance(Instance { class: class_ref, fields: Vec::new() }));
    assert_eq!(Value::Instance(instance_ref).format(&heap).unwrap(), "Point instance");

    let bound_ref = heap.allocate(Object::BoundMethod(BoundMethod {
        receiver: Value::Instance(instance_ref),
        method: closure_ref,
    }));
    assert_eq!(Value::BoundMethod(bound_ref).format(&heap).unwrap(), "<fn greet>");
}

#[test]
fn collection_keeps_roots_and_frees_garbage() {
    let mut heap = Heap::new();
    let keep = heap.intern(String::from("keep"));
    let drop = heap.intern(String::from("drop"));
    let roots = vec![Value::String(keep)];
    heap.collect(&roots);
    assert!(heap.resolves_value(&Value::String(keep)));
    assert!(!heap.resolves_value(&Value::String(drop)));
    assert_eq!(heap.deref_string(keep), "keep");
}

#[test]
fn collection_traces_through_objects() {
    let mut heap = Heap::new();
    let name = heap.intern(String::from("inner"));
    let function_ref = heap.allocate(Object::Function(Function::new(name)));
    let closure_ref =
        heap.allocate(Object::Closure(Closure { function: function_ref, upvalues: Vec::new() }));
    let roots = vec![Value::Closure(closure_ref)];
    heap.collect(&roots);
    assert!(heap.resolves_value(&Value::Closure(closure_ref)));
    assert!(heap.resolves_value(&Value::Function(function_ref)));
    assert!(heap.resolves_value(&Value::String(name)));
    assert_eq!(Value::Closure(closure_ref).format(&heap).unwrap(), "<fn inner>");
}

#[test]
fn collection_reuses_freed_slots() {
    let mut heap = Heap::new();
    let keep = heap.intern(String::from("keep"));
    let doomed = heap.intern(String::from("doomed"));
    let doomed_slot = doomed.slot;
    let roots = vec![Value::String(keep)];
    heap.collect(&roots);
    let replacement = heap.intern(String::from("replacement"));
    assert_eq!(replacement.slot, doomed_slot);
    assert_eq!(heap.deref_string(replacement), "replacement");
}

#[test]
fn intern_table_forgets_swept_strings() {
    let mut heap = Heap::new();
    let doomed = heap.intern(String::from("gone"));
    let doomed_slot = doomed.slot;
    heap.collect(&Vec::new());
    let fresh = heap.intern(String::from("gone"));
    assert_eq!(fresh.slot, doomed_slot);
    assert!(heap.resolves_value(&Value::String(fresh)));
}

#[test]
fn byte_accounting_and_trigger_policy() {
    let mut heap = Heap::new();
    assert_eq!(heap.bytes_allocated, 0);
    assert_eq!(heap.next_gc, GC_INITIAL_THRESHOLD);
    assert!(!heap.needs_collect());
    let kept = heap.intern(String::from("kept"));
    let before = heap.bytes_allocated;
    assert!(before > 0);
    heap.intern(String::from("forgotten"));
    assert!(heap.bytes_allocated > before);
    let roots = vec![Value::String(kept)];
    heap.collect(&roots);
    assert_eq!(heap.bytes_allocated, before);
    assert_eq!(heap.next_gc, 2 * heap.bytes_allocated);
}

#[test]
fn collecting_twice_keeps_the_same_live_set() {
    let mut heap = Heap::new();
    let name = heap.intern(String::from("stable"));
    let function_ref = heap.allocate(Object::Function(Function::new(name)));
    heap.intern(String::from("ephemeral"));
    let roots = vec![Value::Function(function_ref)];
    heap.collect(&roots);
    let bytes_after_first = heap.bytes_allocated;
    heap.collect(&roots);
    assert_eq!(heap.bytes_allocated, bytes_after_first);
    assert!(heap.resolves_value(&Value::Function(function_ref)));
    assert!(heap.resolves_value(&Value::String(name)));
}

#[test]
fn values_contribute_no_heap_bytes() {
    assert_eq!(Value::Nil.get_size(), 0);
    assert_eq!(Value::Number(42u64).get_size(), 0);
}
