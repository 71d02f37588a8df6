//! The tracing collector on concrete graphs: a dropped cycle is
//! reclaimed, reachable cells survive untouched, and freed cells are
//! reused.

use avm2_core::heap::{Heap, HeapObject, ObjKind};
use avm2_core::value::Value;

fn plain(slots: Vec<Value>) -> HeapObject {
    HeapObject {
        class: 0,
        slots,
        dynamic: Vec::new(),
        elements: Vec::new(),
        kind: ObjKind::Plain,
    }
}

#[test]
fn dropped_cycle_is_reclaimed() {
    let mut heap = Heap::new();
    let a = heap.allocate(plain(vec![Value::Undefined]));
    let b = heap.allocate(plain(vec![Value::Undefined]));
    // a and b reference each other
    heap.set(a, plain(vec![Value::Object(b)]));
    heap.set(b, plain(vec![Value::Object(a)]));
    // no root reaches the cycle
    let roots: Vec<usize> = Vec::new();
    heap.collect(&roots);
    assert!(heap.get(a).is_none());
    assert!(heap.get(b).is_none());
}

#[test]
fn rooted_cycle_survives() {
    let mut heap = Heap::new();
    let a = heap.allocate(plain(vec![Value::Undefined]));
    let b = heap.allocate(plain(vec![Value::Undefined]));
    heap.set(a, plain(vec![Value::Object(b)]));
    heap.set(b, plain(vec![Value::Object(a)]));
    let roots = vec![a];
    heap.collect(&roots);
    assert!(heap.get(a).is_some());
    assert!(heap.get(b).is_some());
    assert_eq!(heap.get(a).unwrap().slots, vec![Value::Object(b)]);
    assert_eq!(heap.get(b).unwrap().slots, vec![Value::Object(a)]);
}

#[test]
fn unreachable_branch_is_reclaimed_while_the_rooted_chain_survives() {
    let mut heap = Heap::new();
    let c = heap.allocate(plain(Vec::new()));
    let b = heap.allocate(plain(vec![Value::Object(c)]));
    let a = heap.allocate(plain(vec![Value::Object(b)]));
    let lost = heap.allocate(plain(vec![Value::Object(c)]));
    let roots = vec![a];
    heap.collect(&roots);
    assert!(heap.get(a).is_some());
    assert!(heap.get(b).is_some());
    assert!(heap.get(c).is_some());
    assert!(heap.get(lost).is_none());
}

#[test]
fn references_in_dynamic_bag_and_elements_keep_targets_alive() {
    let mut heap = Heap::new();
    let t1 = heap.allocate(plain(Vec::new()));
    let t2 = heap.allocate(plain(Vec::new()));
    let holder = heap.allocate(HeapObject {
        class: 0,
        slots: Vec::new(),
        dynamic: vec![(0, Value::Object(t1))],
        elements: vec![Value::Object(t2)],
        kind: ObjKind::Array,
    });
    heap.collect(&vec![holder]);
    assert!(heap.get(t1).is_some());
    assert!(heap.get(t2).is_some());
}

#[test]
fn resource_handles_are_opaque_leaves() {
    let mut heap = Heap::new();
    // the handle index of a channel is not a heap reference: cell 0 is
    // not kept alive by it
    let orphan = heap.allocate(plain(Vec::new()));
    assert_eq!(orphan, 0);
    let ch = heap.allocate(HeapObject {
        class: 0,
        slots: Vec::new(),
        dynamic: Vec::new(),
        elements: Vec::new(),
        kind: ObjKind::Channel(0),
    });
    heap.collect(&vec![ch]);
    assert!(heap.get(orphan).is_none());
    assert!(heap.get(ch).is_some());
}

#[test]
fn collection_frees_cells_for_reuse() {
    let mut heap = Heap::new();
    let a = heap.allocate(plain(Vec::new()));
    let b = heap.allocate(plain(Vec::new()));
    heap.collect(&vec![b]);
    assert!(heap.get(a).is_none());
    let c = heap.allocate(plain(Vec::new()));
    // the reclaimed cell is reused, the heap does not grow
    assert_eq!(c, a);
    assert_eq!(heap.cell_count(), 2);
}
