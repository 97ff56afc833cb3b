use avm_object_core::heap::{Heap, Mutation};
use avm_object_core::value::Value;
use avm_object_core::wstr::WString;
use avm_object_core::Attributes;

fn name(s: &str) -> String {
    s.to_string()
}

#[test]
fn prototype_chain_read_through() {
    let mut heap = Heap::new();
    let mc = Mutation::permit();
    let b = heap.new_object(&mc, None);
    let a = heap.new_object(&mc, Some(b));
    heap.set(&mc, b, &name("k"), Value::Num(7));
    assert_eq!(heap.get(a, &name("k")), Value::Num(7));
    assert_eq!(heap.get(b, &name("k")), Value::Num(7));
    assert_eq!(heap.get(a, &name("missing")), Value::Undefined);
}

#[test]
fn own_slot_shadows_prototype() {
    let mut heap = Heap::new();
    let mc = Mutation::permit();
    let b = heap.new_object(&mc, None);
    let a = heap.new_object(&mc, Some(b));
    heap.set(&mc, b, &name("k"), Value::Num(1));
    heap.set(&mc, a, &name("k"), Value::Num(2));
    assert_eq!(heap.get(a, &name("k")), Value::Num(2));
    assert_eq!(heap.get(b, &name("k")), Value::Num(1));
}

#[test]
fn set_never_writes_the_prototype() {
    let mut heap = Heap::new();
    let mc = Mutation::permit();
    let b = heap.new_object(&mc, None);
    let a = heap.new_object(&mc, Some(b));
    heap.set(&mc, a, &name("k"), Value::Num(5));
    assert!(heap.get_own(a, &name("k")).is_some());
    assert!(heap.get_own(b, &name("k")).is_none());
    assert_eq!(heap.get(b, &name("k")), Value::Undefined);
}

#[test]
fn cyclic_prototype_chain_resolves() {
    let mut heap = Heap::new();
    let mc = Mutation::permit();
    let b = heap.new_object(&mc, None);
    let a = heap.new_object(&mc, Some(b));
    // close the cycle: b's prototype is a
    let b2 = heap.new_object(&mc, Some(a));
    heap.set(&mc, b2, &name("x"), Value::Num(3));
    assert_eq!(heap.get(b2, &name("missing")), Value::Undefined);
    assert!(heap.has(b2, &name("x")));
    assert!(!heap.has(b2, &name("missing")));
}

#[test]
fn read_only_write_is_a_silent_no_op() {
    let mut heap = Heap::new();
    let mc = Mutation::permit();
    let a = heap.new_object(&mc, None);
    let attrs = Attributes { enumerable: true, read_only: true, non_deletable: false };
    heap.define_value(&mc, a, &name("k"), Value::Num(9), attrs);
    heap.set(&mc, a, &name("k"), Value::Num(100));
    assert_eq!(heap.get(a, &name("k")), Value::Num(9));
}

#[test]
fn non_deletable_delete_fails_and_slot_survives() {
    let mut heap = Heap::new();
    let mc = Mutation::permit();
    let a = heap.new_object(&mc, None);
    let attrs = Attributes { enumerable: true, read_only: false, non_deletable: true };
    heap.define_value(&mc, a, &name("k"), Value::Num(4), attrs);
    assert_eq!(heap.delete(&mc, a, &name("k")), false);
    assert_eq!(heap.get(a, &name("k")), Value::Num(4));
    // a plain slot deletes fine, a missing one reports failure
    heap.set(&mc, a, &name("p"), Value::Null);
    assert_eq!(heap.delete(&mc, a, &name("p")), true);
    assert_eq!(heap.delete(&mc, a, &name("p")), false);
}

#[test]
fn keys_in_first_set_order_and_reset_keeps_position() {
    let mut heap = Heap::new();
    let mc = Mutation::permit();
    let a = heap.new_object(&mc, None);
    heap.set(&mc, a, &name("one"), Value::Num(1));
    heap.set(&mc, a, &name("two"), Value::Num(2));
    heap.set(&mc, a, &name("three"), Value::Num(3));
    assert_eq!(heap.get_keys(a), vec![name("one"), name("two"), name("three")]);
    heap.set(&mc, a, &name("one"), Value::Num(10));
    assert_eq!(
        heap.get_keys(a),
        vec![name("one"), name("two"), name("three")],
        "re-setting an existing name does not change its position"
    );
    assert_eq!(heap.get(a, &name("one")), Value::Num(10));
}

#[test]
fn keys_lists_enumerable_only() {
    let mut heap = Heap::new();
    let mc = Mutation::permit();
    let a = heap.new_object(&mc, None);
    heap.set(&mc, a, &name("shown"), Value::Num(1));
    heap.define_value(&mc, a, &name("hidden"), Value::Num(2), Attributes::empty());
    assert_eq!(heap.get_keys(a), vec![name("shown")]);
}

#[test]
fn delete_shadow_uncovers_prototype_value() {
    // end-to-end: B defines x=5, A defines x=10; delete A's own x.
    let mut heap = Heap::new();
    let mc = Mutation::permit();
    let b = heap.new_object(&mc, None);
    let a = heap.new_object(&mc, Some(b));
    heap.set(&mc, b, &name("x"), Value::Num(5));
    heap.set(&mc, a, &name("x"), Value::Num(10));
    assert_eq!(heap.get(a, &name("x")), Value::Num(10));
    assert!(heap.delete(&mc, a, &name("x")));
    assert_eq!(heap.get(a, &name("x")), Value::Num(5));
}

#[test]
fn string_values_compare_by_units() {
    let mut heap = Heap::new();
    let mc = Mutation::permit();
    let a = heap.new_object(&mc, None);
    heap.set(&mc, a, &name("s"), Value::Str(WString::from_bytes(b"hi".to_vec())));
    assert_eq!(
        heap.get(a, &name("s")),
        Value::Str(WString::from_wide(vec![0x68, 0x69])),
        "a narrow and a wide buffer with the same units are the same value"
    );
}

#[test]
fn collection_keeps_reachable_cells_and_reclaims_the_rest() {
    let mut heap = Heap::new();
    let mc = Mutation::permit();
    let root = heap.new_object(&mc, None);
    let kept_child = heap.new_object(&mc, None);
    heap.set(&mc, root, &name("child"), Value::Object(kept_child));
    let garbage = heap.new_object(&mc, None);
    heap.set(&mc, garbage, &name("x"), Value::Num(1));
    // cyclic garbage is reclaimed too: tracing, not reference counting
    let cyc_a = heap.new_object(&mc, None);
    let cyc_b = heap.new_object(&mc, Some(cyc_a));
    heap.set(&mc, cyc_a, &name("peer"), Value::Object(cyc_b));

    let _ = heap.collect(&vec![root]);
    assert!(heap.cells[root].is_some());
    assert!(heap.cells[kept_child].is_some());
    assert!(heap.cells[garbage].is_none());
    assert!(heap.cells[cyc_a].is_none());
    assert!(heap.cells[cyc_b].is_none());
    assert_eq!(heap.get(root, &name("child")), Value::Object(kept_child));
}
