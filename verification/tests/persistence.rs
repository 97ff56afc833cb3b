use avm_object_core::function::{
    FunctionPayload, NativeFunction, ScriptFunction, VmHost,
};
use avm_object_core::globals;
use avm_object_core::heap::{Heap, Mutation};
use avm_object_core::object::ProtoRegistry;
use avm_object_core::value::{Completion, Value, VmError};
use avm_object_core::wstr::WString;
use avm_object_core::Attributes;

struct StoreHost {
    saved: Option<String>,
}

impl VmHost for StoreHost {
    fn call_host(
        &mut self,
        _heap: &mut Heap,
        _mc: &Mutation,
        _id: u32,
        _this: usize,
        _args: &Vec<Value>,
    ) -> Result<Value, VmError> {
        Ok(Value::Undefined)
    }

    fn run_script(
        &mut self,
        _heap: &mut Heap,
        _mc: &Mutation,
        _callee: &ScriptFunction,
        _this: usize,
        _args: &Vec<Value>,
    ) -> Result<Completion, VmError> {
        Ok(Completion::Ordinary(Value::Undefined))
    }

    fn storage_get(&mut self, _name: &WString) -> Option<String> {
        self.saved.clone()
    }

    fn storage_put(&mut self, _name: &WString, text: String) {
        self.saved = Some(text);
    }

    fn storage_size(&mut self, _name: &WString) -> Option<u64> {
        self.saved.as_ref().map(|s| s.len() as u64)
    }
}

fn setup() -> (Heap, Mutation, ProtoRegistry, StoreHost) {
    let mut heap = Heap::new();
    let mc = Mutation::permit();
    let op = heap.new_object(&mc, None);
    let fp = globals::function::create_proto(&mut heap, &mc, op);
    let sp = globals::shared_object::create_proto(&mut heap, &mc, op, fp);
    let bp = heap.new_object(&mc, Some(op));
    let protos = ProtoRegistry { object: op, function: fp, shared_object: sp, bevel_filter: bp };
    (heap, mc, protos, StoreHost { saved: None })
}

fn name(s: &str) -> String {
    s.to_string()
}

fn data_of(heap: &Heap, so: usize) -> usize {
    match heap.get(so, &name("data")) {
        Value::Object(d) => d,
        other => panic!("data member expected, got {:?}", other),
    }
}

#[test]
fn round_trip_restores_the_data_sub_object() {
    // persisted object holds {a: 1, b: "hi", c: {d: true}}; serialize,
    // then reconstruct from the produced text.
    let (mut heap, mc, protos, mut host) = setup();
    let so = heap.new_shared_store(&mc, Some(protos.shared_object));
    globals::shared_object::constructor(&mut heap, &mc, &protos, so, &vec![]).unwrap();
    let d = data_of(&heap, so);
    heap.set(&mc, d, &name("a"), Value::Num(1));
    heap.set(&mc, d, &name("b"), Value::Str(WString::from_bytes(b"hi".to_vec())));
    let c = heap.new_object(&mc, Some(protos.object));
    heap.set(&mc, c, &name("d"), Value::Bool(true));
    heap.set(&mc, d, &name("c"), Value::Object(c));

    globals::shared_object::flush(&mut host, &heap, &mc, so, &vec![]).unwrap();
    assert!(host.saved.is_some());

    let restored = globals::shared_object::get_local(
        &mut host,
        &mut heap,
        &mc,
        &protos,
        so,
        &vec![],
    )
    .unwrap();
    let so2 = match restored {
        Value::Object(h) => h,
        other => panic!("object expected, got {:?}", other),
    };
    let d2 = data_of(&heap, so2);
    assert_eq!(heap.get_keys(d2), vec![name("a"), name("b"), name("c")], "no extra or missing keys");
    assert_eq!(heap.get(d2, &name("a")), Value::Num(1));
    assert_eq!(heap.get(d2, &name("b")), Value::Str(WString::from_bytes(b"hi".to_vec())));
    let c2 = match heap.get(d2, &name("c")) {
        Value::Object(h) => h,
        other => panic!("nested object expected, got {:?}", other),
    };
    assert_eq!(heap.get_keys(c2), vec![name("d")]);
    assert_eq!(heap.get(c2, &name("d")), Value::Bool(true));
}

#[test]
fn serialization_skips_undefined_and_callables() {
    let (mut heap, mc, protos, mut host) = setup();
    let so = heap.new_shared_store(&mc, Some(protos.shared_object));
    globals::shared_object::constructor(&mut heap, &mc, &protos, so, &vec![]).unwrap();
    let d = data_of(&heap, so);
    heap.set(&mc, d, &name("keep"), Value::Num(1));
    heap.set(&mc, d, &name("gone"), Value::Undefined);
    let f = heap.new_function(
        &mc,
        FunctionPayload::Native(NativeFunction::Host(9)),
        Some(protos.function),
    );
    heap.set(&mc, d, &name("callable"), Value::Object(f));
    globals::shared_object::flush(&mut host, &heap, &mc, so, &vec![]).unwrap();

    let restored = globals::shared_object::get_local(
        &mut host,
        &mut heap,
        &mc,
        &protos,
        so,
        &vec![],
    )
    .unwrap();
    let so2 = match restored {
        Value::Object(h) => h,
        _ => panic!(),
    };
    let d2 = data_of(&heap, so2);
    assert_eq!(heap.get_keys(d2), vec![name("keep")]);
}

#[test]
fn cyclic_data_is_a_depth_error() {
    let (mut heap, mc, protos, mut host) = setup();
    let so = heap.new_shared_store(&mc, Some(protos.shared_object));
    globals::shared_object::constructor(&mut heap, &mc, &protos, so, &vec![]).unwrap();
    let d = data_of(&heap, so);
    heap.set(&mc, d, &name("me"), Value::Object(d));
    let r = globals::shared_object::flush(&mut host, &heap, &mc, so, &vec![]);
    assert_eq!(r, Err(VmError::DepthExceeded));
}

#[test]
fn unpaired_surrogate_is_an_encoding_error() {
    let (mut heap, mc, protos, mut host) = setup();
    let so = heap.new_shared_store(&mc, Some(protos.shared_object));
    globals::shared_object::constructor(&mut heap, &mc, &protos, so, &vec![]).unwrap();
    let d = data_of(&heap, so);
    heap.set(&mc, d, &name("bad"), Value::Str(WString::from_wide(vec![0xD800])));
    let r = globals::shared_object::flush(&mut host, &heap, &mc, so, &vec![]);
    assert_eq!(r, Err(VmError::StringEncoding));
}

#[test]
fn flush_without_data_member_fails() {
    let (mut heap, mc, _protos, mut host) = setup();
    let bare = heap.new_object(&mc, None);
    let r = globals::shared_object::flush(&mut host, &heap, &mc, bare, &vec![]);
    assert_eq!(r, Err(VmError::TypeCoercion));
}

#[test]
fn get_local_without_saved_state_gives_empty_data() {
    let (mut heap, mc, protos, mut host) = setup();
    let this = heap.new_object(&mc, None);
    let r = globals::shared_object::get_local(&mut host, &mut heap, &mc, &protos, this, &vec![])
        .unwrap();
    let so = match r {
        Value::Object(h) => h,
        _ => panic!(),
    };
    let d = data_of(&heap, so);
    assert_eq!(heap.get_keys(d), Vec::<String>::new());
}

#[test]
fn clear_removes_enumerable_deletable_slots_only() {
    let (mut heap, mc, protos, _host) = setup();
    let so = heap.new_shared_store(&mc, Some(protos.shared_object));
    globals::shared_object::constructor(&mut heap, &mc, &protos, so, &vec![]).unwrap();
    let d = data_of(&heap, so);
    heap.set(&mc, d, &name("plain"), Value::Num(1));
    heap.define_value(
        &mc,
        d,
        &name("pinned"),
        Value::Num(2),
        Attributes { enumerable: true, read_only: false, non_deletable: true },
    );
    heap.define_value(&mc, d, &name("hidden"), Value::Num(3), Attributes::empty());
    let r = globals::shared_object::clear(&mut heap, &mc, so, &vec![]);
    assert_eq!(r, Ok(Value::Undefined));
    assert_eq!(heap.get(d, &name("plain")), Value::Undefined);
    assert_eq!(heap.get(d, &name("pinned")), Value::Num(2));
    assert_eq!(heap.get(d, &name("hidden")), Value::Num(3));
}

#[test]
fn serialized_text_is_structured_not_echoed() {
    // the encoder must actually encode: the stored text is a document,
    // not the raw property values handed through unchanged
    let (mut heap, mc, protos, mut host) = setup();
    let so = heap.new_shared_store(&mc, Some(protos.shared_object));
    globals::shared_object::constructor(&mut heap, &mc, &protos, so, &vec![]).unwrap();
    let d = data_of(&heap, so);
    heap.set(&mc, d, &name("a"), Value::Num(1));
    globals::shared_object::flush(&mut host, &heap, &mc, so, &vec![]).unwrap();
    let text = host.saved.clone().unwrap();
    assert!(text.contains("\"a\""), "keys appear quoted in the document: {}", text);
    assert!(text.contains('1'));
    assert_ne!(text, "a");
    assert_ne!(text, "1");
}

#[test]
fn minimum_number_is_a_range_error_and_its_neighbour_round_trips() {
    let (mut heap, mc, protos, mut host) = setup();
    let so = heap.new_shared_store(&mc, Some(protos.shared_object));
    globals::shared_object::constructor(&mut heap, &mc, &protos, so, &vec![]).unwrap();
    let d = data_of(&heap, so);
    heap.set(&mc, d, &name("edge"), Value::Num(i64::MIN));
    let r = globals::shared_object::flush(&mut host, &heap, &mc, so, &vec![]);
    assert_eq!(r, Err(VmError::NumberRange));

    heap.set(&mc, d, &name("edge"), Value::Num(i64::MIN + 1));
    heap.set(&mc, d, &name("top"), Value::Num(i64::MAX));
    globals::shared_object::flush(&mut host, &heap, &mc, so, &vec![]).unwrap();
    let restored = globals::shared_object::get_local(
        &mut host,
        &mut heap,
        &mc,
        &protos,
        so,
        &vec![],
    )
    .unwrap();
    let so2 = match restored {
        Value::Object(h) => h,
        _ => panic!(),
    };
    let d2 = data_of(&heap, so2);
    assert_eq!(heap.get(d2, &name("edge")), Value::Num(i64::MIN + 1));
    assert_eq!(heap.get(d2, &name("top")), Value::Num(i64::MAX));
}

#[test]
fn decimal_numbers_in_stored_text_are_skipped_on_load() {
    // the runtime's numeric payload is integral; a decimal value in the
    // stored text falls outside the document model and is skipped
    let (mut heap, mc, protos, mut host) = setup();
    host.saved = Some("{\"a\":1,\"b\":2.5}".to_string());
    let this = heap.new_object(&mc, None);
    let r = globals::shared_object::get_local(&mut host, &mut heap, &mc, &protos, this, &vec![])
        .unwrap();
    let so = match r {
        Value::Object(h) => h,
        _ => panic!(),
    };
    let d = data_of(&heap, so);
    assert_eq!(heap.get_keys(d), vec![name("a")]);
    assert_eq!(heap.get(d, &name("a")), Value::Num(1));
}
