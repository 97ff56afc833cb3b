use avm_object_core::bevel_filter::{self, BevelFilterData, BevelFilterType};
use avm_object_core::function::{FunctionPayload, NativeFunction};
use avm_object_core::heap::{Heap, Mutation, NativeKind};
use avm_object_core::value::{coerce_to_wstring, Value};
use avm_object_core::wstr::WString;

#[test]
fn downcast_family_is_exclusive() {
    let mut heap = Heap::new();
    let mc = Mutation::permit();
    let f = heap.new_function(
        &mc,
        FunctionPayload::Native(NativeFunction::FunctionConstructor),
        None,
    );
    let s = heap.new_shared_store(&mc, None);
    let b = bevel_filter::empty_object(&mut heap, &mc, None);
    let plain = heap.new_object(&mc, None);

    // a Function-kind object answers only the function query
    assert!(heap.read(f).as_function().is_some());
    assert!(heap.read(f).as_shared_store().is_none());
    assert!(heap.read(f).as_bevel_filter().is_none());

    assert!(heap.read(s).as_shared_store().is_some());
    assert!(heap.read(s).as_function().is_none());
    assert!(heap.read(s).as_bevel_filter().is_none());

    assert!(heap.read(b).as_bevel_filter().is_some());
    assert!(heap.read(b).as_function().is_none());
    assert!(heap.read(b).as_shared_store().is_none());

    assert!(heap.read(plain).as_function().is_none());
    assert!(heap.read(plain).as_shared_store().is_none());
    assert!(heap.read(plain).as_bevel_filter().is_none());

    // and every kind exposes its generic base
    assert!(heap.read(f).as_script_object().table.slots.is_empty());
    assert!(heap.read(plain).as_script_object().table.slots.is_empty());
}

#[test]
fn bevel_filter_defaults_and_accessors() {
    let mut heap = Heap::new();
    let mc = Mutation::permit();
    let b = bevel_filter::empty_object(&mut heap, &mc, None);
    let data = heap.read(b).as_bevel_filter().unwrap();
    assert_eq!(*data, BevelFilterData::defaults());
    assert_eq!(data.get_angle(), 45);
    assert_eq!(data.get_blur_x(), 4);
    assert_eq!(data.get_blur_y(), 4);
    assert_eq!(data.get_distance(), 4);
    assert_eq!(data.get_highlight_alpha(), 1);
    assert_eq!(data.get_highlight_color(), 0xFFFFFF);
    assert_eq!(data.get_knockout(), false);
    assert_eq!(data.get_quality(), 1);
    assert_eq!(data.get_shadow_alpha(), 1);
    assert_eq!(data.get_shadow_color(), 0);
    assert_eq!(data.get_strength(), 1);
    assert_eq!(data.get_type(), BevelFilterType::Inner);

    let mut d = BevelFilterData::defaults();
    d.set_angle(90);
    d.set_knockout(true);
    d.set_type(BevelFilterType::Outer);
    assert_eq!(d.get_angle(), 90);
    assert_eq!(d.get_knockout(), true);
    assert_eq!(d.get_type(), BevelFilterType::Outer);
    assert_eq!(d.get_blur_x(), 4, "other fields untouched");
}

#[test]
fn bevel_filter_type_names() {
    assert_eq!(BevelFilterType::from_name(&"inner".to_string()), BevelFilterType::Inner);
    assert_eq!(BevelFilterType::from_name(&"outer".to_string()), BevelFilterType::Outer);
    assert_eq!(BevelFilterType::from_name(&"full".to_string()), BevelFilterType::Full);
    assert_eq!(BevelFilterType::from_name(&"anything".to_string()), BevelFilterType::Full);
    assert_eq!(BevelFilterType::Inner.name(), "inner");
    assert_eq!(BevelFilterType::Outer.name(), "outer");
    assert_eq!(BevelFilterType::Full.name(), "full");
}

#[test]
fn bevel_object_carries_its_kind_tag() {
    let mut heap = Heap::new();
    let mc = Mutation::permit();
    let b = bevel_filter::empty_object(&mut heap, &mc, None);
    match &heap.read(b).kind {
        NativeKind::BevelFilter(d) => assert_eq!(d.get_quality(), 1),
        other => panic!("bevel kind expected, got {:?}", other),
    }
}

#[test]
fn textual_coercion_of_plain_values() {
    fn units(v: Value) -> Vec<u16> {
        let w = coerce_to_wstring(&v).unwrap();
        (0..w.len()).map(|i| w.get(i)).collect()
    }
    assert_eq!(units(Value::Num(0)), b"0".iter().map(|b| *b as u16).collect::<Vec<u16>>());
    assert_eq!(units(Value::Num(123)), b"123".iter().map(|b| *b as u16).collect::<Vec<u16>>());
    assert_eq!(units(Value::Num(-45)), b"-45".iter().map(|b| *b as u16).collect::<Vec<u16>>());
    assert_eq!(units(Value::Bool(true)), b"true".iter().map(|b| *b as u16).collect::<Vec<u16>>());
    assert_eq!(units(Value::Null), b"null".iter().map(|b| *b as u16).collect::<Vec<u16>>());
    assert_eq!(
        units(Value::Undefined),
        b"undefined".iter().map(|b| *b as u16).collect::<Vec<u16>>()
    );
    let w = WString::from_wide(vec![0xD800, 65]);
    assert_eq!(units(Value::Str(w)), vec![0xD800, 65], "string units pass through verbatim");
    assert!(coerce_to_wstring(&Value::Object(0)).is_err());
}

#[test]
fn value_duplication_preserves_the_model() {
    let v = Value::Str(WString::from_bytes(b"abc".to_vec()));
    let d = v.dup();
    assert_eq!(v, d);
    assert_eq!(Value::Num(7).dup(), Value::Num(7));
    assert_eq!(Value::Undefined.dup(), Value::Undefined);
    assert!(Value::Num(7) != Value::Num(8));
    assert!(Value::Num(7) != Value::Bool(true));
}
