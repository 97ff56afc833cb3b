use avm_object_core::function::{
    construct, invoke, FunctionPayload, NativeFunction, ScriptFunction, VmHost,
};
use avm_object_core::globals;
use avm_object_core::heap::{Heap, Mutation};
use avm_object_core::object::ProtoRegistry;
use avm_object_core::value::{Completion, Value, VmError};
use avm_object_core::wstr::WString;

struct TestHost {
    saved: Option<String>,
}

impl VmHost for TestHost {
    fn call_host(
        &mut self,
        _heap: &mut Heap,
        _mc: &Mutation,
        id: u32,
        _this: usize,
        args: &Vec<Value>,
    ) -> Result<Value, VmError> {
        if id == 0 {
            // a handler returning the sum of its first two arguments,
            // missing trailing arguments read as zero
            let a = match args.get(0) {
                Some(Value::Num(n)) => *n,
                _ => 0,
            };
            let b = match args.get(1) {
                Some(Value::Num(n)) => *n,
                _ => 0,
            };
            Ok(Value::Num(a + b))
        } else {
            Ok(Value::Undefined)
        }
    }

    fn run_script(
        &mut self,
        _heap: &mut Heap,
        _mc: &Mutation,
        _callee: &ScriptFunction,
        _this: usize,
        _args: &Vec<Value>,
    ) -> Result<Completion, VmError> {
        Ok(Completion::EarlyReturn(Value::Num(42)))
    }

    fn storage_get(&mut self, _name: &WString) -> Option<String> {
        self.saved.clone()
    }

    fn storage_put(&mut self, _name: &WString, text: String) {
        self.saved = Some(text);
    }

    fn storage_size(&mut self, _name: &WString) -> Option<u64> {
        self.saved.as_ref().map(|s| s.len() as u64)
    }
}

fn setup() -> (Heap, Mutation, ProtoRegistry, TestHost) {
    let mut heap = Heap::new();
    let mc = Mutation::permit();
    let op = heap.new_object(&mc, None);
    let fp = globals::function::create_proto(&mut heap, &mc, op);
    let sp = globals::shared_object::create_proto(&mut heap, &mc, op, fp);
    let bp = heap.new_object(&mc, Some(op));
    let protos = ProtoRegistry { object: op, function: fp, shared_object: sp, bevel_filter: bp };
    (heap, mc, protos, TestHost { saved: None })
}

#[test]
fn host_handler_sums_its_first_two_arguments() {
    let (mut heap, mc, protos, mut host) = setup();
    let f = heap.new_function(
        &mc,
        FunctionPayload::Native(NativeFunction::Host(0)),
        Some(protos.function),
    );
    let this = heap.new_object(&mc, None);
    let r = invoke(&mut host, &mut heap, &mc, &protos, f, this, &vec![
        Value::Num(2),
        Value::Num(3),
    ]);
    assert_eq!(r, Ok(Value::Num(5)));
    // any this-binding gives the same answer
    let other = heap.new_object(&mc, Some(protos.object));
    let r2 = invoke(&mut host, &mut heap, &mc, &protos, f, other, &vec![
        Value::Num(2),
        Value::Num(3),
    ]);
    assert_eq!(r2, Ok(Value::Num(5)));
}

#[test]
fn invoking_a_plain_object_is_not_callable() {
    let (mut heap, mc, protos, mut host) = setup();
    let a = heap.new_object(&mc, None);
    let r = invoke(&mut host, &mut heap, &mc, &protos, a, a, &vec![]);
    assert_eq!(r, Err(VmError::NotCallable));
}

#[test]
fn function_prototype_members_return_undefined() {
    let (mut heap, mc, protos, mut host) = setup();
    let keys = heap.get_keys(protos.function);
    assert_eq!(keys, vec!["call".to_string(), "apply".to_string()]);
    let callv = heap.get(protos.function, &"call".to_string());
    let call_fn = match callv {
        Value::Object(h) => h,
        other => panic!("call member should be an object, got {:?}", other),
    };
    let this = heap.new_object(&mc, None);
    let r = invoke(&mut host, &mut heap, &mc, &protos, call_fn, this, &vec![]);
    assert_eq!(r, Ok(Value::Undefined));
}

#[test]
fn scripted_dispatch_exposes_completion_as_plain_value() {
    let (mut heap, mc, protos, mut host) = setup();
    let f = heap.new_function(
        &mc,
        FunctionPayload::Scripted(ScriptFunction { code: vec![1, 2, 3], scope: None }),
        Some(protos.function),
    );
    let this = heap.new_object(&mc, None);
    let r = invoke(&mut host, &mut heap, &mc, &protos, f, this, &vec![]);
    assert_eq!(r, Ok(Value::Num(42)), "an early return reads as an ordinary value");
}

#[test]
fn construct_uses_the_callee_prototype_and_runs_the_constructor() {
    let (mut heap, mc, protos, mut host) = setup();
    let class = globals::shared_object::create_shared_object_object(
        &mut heap,
        &mc,
        Some(protos.shared_object),
        Some(protos.function),
    );
    let r = construct(&mut host, &mut heap, &mc, &protos, class, &vec![]).unwrap();
    let inst = match r {
        Value::Object(h) => h,
        other => panic!("constructed an object, got {:?}", other),
    };
    // the instance sees the shared prototype's members through its chain
    assert!(heap.has(inst, &"clear".to_string()));
    // and the constructor wired a data sub-object
    match heap.get(inst, &"data".to_string()) {
        Value::Object(_) => {},
        other => panic!("data member expected, got {:?}", other),
    }
}

#[test]
fn get_size_reports_storage_size_or_zero() {
    let (mut heap, mc, protos, mut host) = setup();
    let this = heap.new_object(&mc, None);
    let r = globals::shared_object::get_size(&mut host, &mut heap, &mc, this, &vec![
        Value::Str(WString::from_bytes(b"tmp".to_vec())),
    ]);
    assert_eq!(r, Ok(Value::Num(0)), "missing entries default to zero");
    host.saved = Some("abcde".to_string());
    let r2 = globals::shared_object::get_size(&mut host, &mut heap, &mc, this, &vec![
        Value::Str(WString::from_bytes(b"tmp".to_vec())),
    ]);
    assert_eq!(r2, Ok(Value::Num(5)));
    // a name that cannot be converted to text is rejected
    let r3 = globals::shared_object::get_size(&mut host, &mut heap, &mc, this, &vec![
        Value::Object(this),
    ]);
    assert_eq!(r3, Err(VmError::TypeCoercion));
    // numbers coerce to their decimal text
    let r4 = globals::shared_object::get_size(&mut host, &mut heap, &mc, this, &vec![
        Value::Num(-45),
    ]);
    assert_eq!(r4, Ok(Value::Num(5)));
}

#[test]
fn stub_natives_return_undefined() {
    let (mut heap, mc, _protos, _host) = setup();
    let this = heap.new_object(&mc, None);
    let args: Vec<Value> = vec![];
    assert_eq!(
        globals::shared_object::delete_all(&mut heap, &mc, this, &args),
        Ok(Value::Undefined)
    );
    assert_eq!(
        globals::shared_object::get_disk_usage(&mut heap, &mc, this, &args),
        Ok(Value::Undefined)
    );
    assert_eq!(
        globals::shared_object::get_remote(&mut heap, &mc, this, &args),
        Ok(Value::Undefined)
    );
    assert_eq!(
        globals::shared_object::get_max_size(&mut heap, &mc, this, &args),
        Ok(Value::Undefined)
    );
    assert_eq!(globals::shared_object::close(&mut heap, &mc, this, &args), Ok(Value::Undefined));
    assert_eq!(globals::shared_object::connect(&mut heap, &mc, this, &args), Ok(Value::Undefined));
    assert_eq!(globals::shared_object::send(&mut heap, &mc, this, &args), Ok(Value::Undefined));
    assert_eq!(globals::shared_object::set_fps(&mut heap, &mc, this, &args), Ok(Value::Undefined));
    assert_eq!(
        globals::shared_object::on_status(&mut heap, &mc, this, &args),
        Ok(Value::Undefined)
    );
    assert_eq!(globals::shared_object::on_sync(&mut heap, &mc, this, &args), Ok(Value::Undefined));
    assert_eq!(globals::function::constructor(&mut heap, &mc, this, &args), Ok(Value::Undefined));
    assert_eq!(globals::function::call(&mut heap, &mc, this, &args), Ok(Value::Undefined));
    assert_eq!(globals::function::apply(&mut heap, &mc, this, &args), Ok(Value::Undefined));
}
