//! The persisted-storage global class: its natives, its constructor, its
//! prototype, and its class object.

use vstd::prelude::*;

use crate::Attributes;
use crate::function::{NativeFunction, VmHost};
use crate::heap::{Heap, Mutation};
use crate::object::ProtoRegistry;
use crate::property::{attrs_of, has_key, val_of, SlotV};
use crate::value::{coerce_to_wstring, vv, Value, VmError, VVal};
use crate::wstr::WString;

verus! {

/// `deleteAll` is not implemented by this runtime: it returns `Undefined`
/// and leaves the heap untouched.
pub fn delete_all(heap: &mut Heap, mc: &Mutation, this: usize, args: &Vec<Value>) -> (r: Result<
    Value,
    VmError,
>)
    ensures
        *final(heap) == *old(heap),
        r is Ok && vv(r->Ok_0) == VVal::Undefined,
{
    Ok(Value::Undefined)
}

/// `getDiskUsage` is not implemented: returns `Undefined`, heap untouched.
pub fn get_disk_usage(heap: &mut Heap, mc: &Mutation, this: usize, args: &Vec<Value>) -> (r:
    Result<Value, VmError>)
    ensures
        *final(heap) == *old(heap),
        r is Ok && vv(r->Ok_0) == VVal::Undefined,
{
    Ok(Value::Undefined)
}

/// `getRemote` is not implemented: returns `Undefined`, heap untouched.
pub fn get_remote(heap: &mut Heap, mc: &Mutation, this: usize, args: &Vec<Value>) -> (r: Result<
    Value,
    VmError,
>)
    ensures
        *final(heap) == *old(heap),
        r is Ok && vv(r->Ok_0) == VVal::Undefined,
{
    Ok(Value::Undefined)
}

/// `getMaxSize` is not implemented: returns `Undefined`, heap untouched.
pub fn get_max_size(heap: &mut Heap, mc: &Mutation, this: usize, args: &Vec<Value>) -> (r: Result<
    Value,
    VmError,
>)
    ensures
        *final(heap) == *old(heap),
        r is Ok && vv(r->Ok_0) == VVal::Undefined,
{
    Ok(Value::Undefined)
}

/// `close` is not implemented: returns `Undefined`, heap untouched.
pub fn close(heap: &mut Heap, mc: &Mutation, this: usize, args: &Vec<Value>) -> (r: Result<
    Value,
    VmError,
>)
    ensures
        *final(heap) == *old(heap),
        r is Ok && vv(r->Ok_0) == VVal::Undefined,
{
    Ok(Value::Undefined)
}

/// `connect` is not implemented: returns `Undefined`, heap untouched.
pub fn connect(heap: &mut Heap, mc: &Mutation, this: usize, args: &Vec<Value>) -> (r: Result<
    Value,
    VmError,
>)
    ensures
        *final(heap) == *old(heap),
        r is Ok && vv(r->Ok_0) == VVal::Undefined,
{
    Ok(Value::Undefined)
}

/// `send` is not implemented: returns `Undefined`, heap untouched.
pub fn send(heap: &mut Heap, mc: &Mutation, this: usize, args: &Vec<Value>) -> (r: Result<
    Value,
    VmError,
>)
    ensures
        *final(heap) == *old(heap),
        r is Ok && vv(r->Ok_0) == VVal::Undefined,
{
    Ok(Value::Undefined)
}

/// `setFps` is not implemented: returns `Undefined`, heap untouched.
pub fn set_fps(heap: &mut Heap, mc: &Mutation, this: usize, args: &Vec<Value>) -> (r: Result<
    Value,
    VmError,
>)
    ensures
        *final(heap) == *old(heap),
        r is Ok && vv(r->Ok_0) == VVal::Undefined,
{
    Ok(Value::Undefined)
}

/// `onStatus` is not implemented: returns `Undefined`, heap untouched.
pub fn on_status(heap: &mut Heap, mc: &Mutation, this: usize, args: &Vec<Value>) -> (r: Result<
    Value,
    VmError,
>)
    ensures
        *final(heap) == *old(heap),
        r is Ok && vv(r->Ok_0) == VVal::Undefined,
{
    Ok(Value::Undefined)
}

/// `onSync` is not implemented: returns `Undefined`, heap untouched.
pub fn on_sync(heap: &mut Heap, mc: &Mutation, this: usize, args: &Vec<Value>) -> (r: Result<
    Value,
    VmError,
>)
    ensures
        *final(heap) == *old(heap),
        r is Ok && vv(r->Ok_0) == VVal::Undefined,
{
    Ok(Value::Undefined)
}

/// The persisted-storage constructor: allocates a fresh, empty sub-object
/// under the object prototype and wires it onto `this` as the `data`
/// member.
pub fn constructor(
    heap: &mut Heap,
    mc: &Mutation,
    protos: &ProtoRegistry,
    this: usize,
    args: &Vec<Value>,
) -> (r: Result<Value, VmError>)
    requires
        old(heap).wf(),
        old(heap).live(this as int),
        protos.ok(*old(heap)),
    ensures
        final(heap).wf(),
        old(heap).retained_by(*final(heap)),
        r is Ok && vv(r->Ok_0) == VVal::Undefined,
        final(heap).cells@.len() == old(heap).cells@.len() + 1,
        forall|x: int| 0 <= x < old(heap).cells@.len() && x != this ==> final(heap).cells@[x]
            == old(heap).cells@[x],
        final(heap).live(old(heap).cells@.len() as int),
        final(heap).obj(old(heap).cells@.len() as int).is_script(),
        final(heap).table(old(heap).cells@.len() as int) == Seq::<crate::property::SlotV>::empty(),
        final(heap).proto_of(old(heap).cells@.len() as int) == Some(protos.object),
        final(heap).obj(this as int).kind == old(heap).obj(this as int).kind,
        final(heap).proto_of(this as int) == old(heap).proto_of(this as int),
        crate::property::has_key(final(heap).table(this as int), "data"@),
        crate::property::val_of(final(heap).table(this as int), "data"@) == VVal::Obj(
            (old(heap).cells@.len()) as usize,
        ),
        crate::property::attrs_of(final(heap).table(this as int), "data"@)
            == Attributes::spec_enumerable_only(),
        forall|k: Seq<char>|
            k != "data"@ ==> #[trigger] has_key(final(heap).table(this as int), k) == has_key(
                old(heap).table(this as int),
                k,
            ) && (has_key(old(heap).table(this as int), k) ==> val_of(
                final(heap).table(this as int),
                k,
            ) == val_of(old(heap).table(this as int), k) && attrs_of(
                final(heap).table(this as int),
                k,
            ) == attrs_of(old(heap).table(this as int), k)),
        old(heap).table(this as int) == Seq::<crate::property::SlotV>::empty()
            ==> final(heap).table(this as int).len() == 1,
    {
    let data = heap.new_object(mc, Some(protos.object));
    let ghost mid = *heap;
    let data_name = String::from_str("data");
    heap.define_value(mc, this, &data_name, Value::Object(data), Attributes::enumerable_only());
    proof {
        let pre = mid.table(this as int);
        let t = heap.table(this as int);
        crate::property::lemma_find_idx(pre, "data"@);
        let written = crate::property::SlotV {
            name: "data"@,
            value: VVal::Obj(data),
            attrs: Attributes::spec_enumerable_only(),
        };
        if crate::property::has_key(pre, "data"@) {
            let idx = crate::property::find_idx(pre, "data"@);
            crate::property::lemma_update_other_keys(pre, idx, written);
        } else {
            crate::property::lemma_push_other_keys(pre, written);
        }
    }
    Ok(Value::Undefined)
}

/// Clears the persisted object's data: every enumerable, deletable slot of
/// the `data` sub-object is removed; non-enumerable and non-deletable
/// slots survive untouched. Fails only when `this` carries no object-valued
/// `data` member.
pub fn clear(heap: &mut Heap, mc: &Mutation, this: usize, args: &Vec<Value>) -> (r: Result<
    Value,
    VmError,
>)
    requires
        old(heap).wf(),
        old(heap).live(this as int),
    ensures
        final(heap).wf(),
        old(heap).retained_by(*final(heap)),
        final(heap).cells@.len() == old(heap).cells@.len(),
        !(crate::object::resolve(*old(heap), this as int, "data"@) is Obj)
            ==> r is Err && *final(heap) == *old(heap),
        (crate::object::resolve(*old(heap), this as int, "data"@) is Obj) ==> ({
            let d = crate::object::resolve(*old(heap), this as int, "data"@)->Obj_0 as int;
            &&& r is Ok
            &&& vv(r->Ok_0) == VVal::Undefined
            &&& (forall|x: int|
                0 <= x < old(heap).cells@.len() && x != d ==> final(heap).cells@[x] == old(
                    heap,
                ).cells@[x])
            &&& final(heap).live(d)
            &&& final(heap).proto_of(d) == old(heap).proto_of(d)
            &&& final(heap).obj(d).kind == old(heap).obj(d).kind
            &&& (forall|k: Seq<char>|
                #[trigger] has_key(final(heap).table(d), k) ==> has_key(old(heap).table(d), k)
                    && val_of(final(heap).table(d), k) == val_of(old(heap).table(d), k)
                    && attrs_of(final(heap).table(d), k) == attrs_of(old(heap).table(d), k))
            &&& (forall|k: Seq<char>|
                #[trigger] has_key(old(heap).table(d), k) && (!attrs_of(
                    old(heap).table(d),
                    k,
                ).enumerable || attrs_of(old(heap).table(d), k).non_deletable) ==> has_key(
                    final(heap).table(d),
                    k,
                ))
            &&& (forall|k: Seq<char>|
                #[trigger] has_key(old(heap).table(d), k) && attrs_of(
                    old(heap).table(d),
                    k,
                ).enumerable && !attrs_of(old(heap).table(d), k).non_deletable ==> !has_key(
                    final(heap).table(d),
                    k,
                ))
        }),
{
    let data_name = String::from_str("data");
    let dv = heap.get(this, &data_name);
    let d = match dv.as_object() {
        Some(d) => d,
        None => {
            return Err(VmError::TypeCoercion);
        },
    };
    proof {
        crate::object::lemma_lookup_live(*heap, this as int, "data"@, Set::empty());
    }
    let keys = heap.get_keys(d);
    let n = keys.len();
    let ghost origt = heap.table(d as int);
    let mut i: usize = 0;
    proof {
        assert(heap.obj_ok(heap.obj(d as int)));
    }
    while i < n
        invariant
            heap.wf(),
            old(heap).retained_by(*heap),
            heap.cells@.len() == old(heap).cells@.len(),
            heap.live(d as int),
            d < heap.cells@.len(),
            heap.proto_of(d as int) == old(heap).proto_of(d as int),
            heap.obj(d as int).kind == old(heap).obj(d as int).kind,
            origt == old(heap).table(d as int),
            crate::property::keys_unique(origt),
            forall|x: int| 0 <= x < old(heap).cells@.len() && x != d ==> heap.cells@[x] == old(
                heap,
            ).cells@[x],
            n == keys@.len(),
            i <= n,
            crate::property::key_views(keys@) == crate::property::enum_keys(origt),
            forall|k: Seq<char>|
                #[trigger] has_key(heap.table(d as int), k) ==> has_key(origt, k) && val_of(
                    heap.table(d as int),
                    k,
                ) == val_of(origt, k) && attrs_of(heap.table(d as int), k) == attrs_of(origt, k),
            forall|k: Seq<char>|
                #[trigger] has_key(origt, k) && (!attrs_of(origt, k).enumerable || attrs_of(
                    origt,
                    k,
                ).non_deletable) ==> has_key(heap.table(d as int), k),
            forall|j: int|
                0 <= j < i && has_key(origt, keys@[j]@) && !attrs_of(
                    origt,
                    #[trigger] keys@[j]@,
                ).non_deletable ==> !has_key(heap.table(d as int), keys@[j]@),
        decreases n - i,
    {
        let ghost pret = heap.table(d as int);
        let ghost k = keys@[i as int]@;
        proof {
            assert(crate::property::key_views(keys@)[i as int] == k);
            assert(crate::property::enum_keys(origt)[i as int] == k);
            crate::property::lemma_enum_keys_member(origt, i as int);
            crate::property::lemma_find_idx(pret, k);
            if has_key(pret, k) && !attrs_of(pret, k).non_deletable {
                crate::property::lemma_remove_other_keys(pret, crate::property::find_idx(pret, k));
            }
        }
        heap.delete(mc, d, &keys[i]);
        proof {
            assert forall|k2: Seq<char>|
                #[trigger] has_key(origt, k2) && (!attrs_of(origt, k2).enumerable || attrs_of(
                origt,
                k2,
            ).non_deletable) implies has_key(heap.table(d as int), k2) by {
                if k2 == k {
                    assert(attrs_of(origt, k).enumerable);
                    assert(attrs_of(origt, k2).non_deletable);
                    assert(has_key(pret, k2));
                    assert(attrs_of(pret, k2) == attrs_of(origt, k2));
                } else {
                    assert(has_key(pret, k2));
                }
            }
        }
        i += 1;
    }
    proof {
        assert forall|k: Seq<char>|
            #[trigger] has_key(origt, k) && attrs_of(origt, k).enumerable && !attrs_of(
            origt,
            k,
        ).non_deletable implies !has_key(heap.table(d as int), k) by {
            crate::property::lemma_enum_keys_complete(origt, k);
            let j = choose|j: int|
                0 <= j < crate::property::enum_keys(origt).len() && crate::property::enum_keys(
                    origt,
                )[j] == k;
            assert(crate::property::key_views(keys@)[j] == k);
            assert(keys@[j]@ == k);
        }
    }
    Ok(Value::Undefined)
}

/// Computes the size the persisted storage reports for a named entry:
/// a missing entry reports zero — observed legacy behavior, not a
/// confirmed contract — and an oversized one saturates the numeric range.
pub fn size_value(sz: Option<u64>) -> (r: Value)
    ensures
        vv(r) == (match sz {
            Some(n) => if n > (i64::MAX as u64) {
                VVal::Num(i64::MAX)
            } else {
                VVal::Num(n as i64)
            },
            None => VVal::Num(0),
        }),
{
    match sz {
        None => Value::Num(0),
        Some(n) => if n > (i64::MAX as u64) {
            Value::Num(i64::MAX)
        } else {
            Value::Num(n as i64)
        },
    }
}

/// `getSize`: converts the first argument to a storage key and reports the
/// size the host's storage gives for it. Fails exactly when the name
/// cannot be converted to text (it is an object reference).
pub fn get_size<H: VmHost>(
    host: &mut H,
    heap: &mut Heap,
    mc: &Mutation,
    this: usize,
    args: &Vec<Value>,
) -> (r: Result<Value, VmError>)
    ensures
        *final(heap) == *old(heap),
        r is Err <==> (args@.len() > 0 && vv(args@[0]) is Obj),
        r is Err ==> r->Err_0 == VmError::TypeCoercion,
        r is Ok ==> vv(r->Ok_0) is Num,
{
    let undef = Value::Undefined;
    let arg = if args.len() > 0 {
        &args[0]
    } else {
        &undef
    };
    let name = match coerce_to_wstring(arg) {
        Ok(w) => w,
        Err(e) => {
            return Err(e);
        },
    };
    let size = host.storage_size(&name);
    Ok(size_value(size))
}

/// `flush`: serializes the `data` sub-object's enumerable properties to
/// text and hands the text to the host's storage under the fixed key.
/// Fails when `this` carries no object-valued `data` member, when a string
/// value cannot be carried by the text format, when a number sits at the
/// edge of the representable range, or when the data graph is cyclic;
/// succeeds on everything else.
pub fn flush<H: VmHost>(
    host: &mut H,
    heap: &Heap,
    mc: &Mutation,
    this: usize,
    args: &Vec<Value>,
) -> (r: Result<Value, VmError>)
    requires
        heap.wf(),
        heap.live(this as int),
    ensures
        r is Ok ==> vv(r->Ok_0) == VVal::Undefined,
        !(crate::object::resolve(*heap, this as int, "data"@) is Obj) ==> r == Err::<
            Value,
            VmError,
        >(VmError::TypeCoercion),
        (crate::object::resolve(*heap, this as int, "data"@) is Obj && crate::doc::serial_ok(
            *heap,
            crate::object::resolve(*heap, this as int, "data"@)->Obj_0 as int,
            heap.cells@.len() as nat,
        )) ==> r is Ok,
        (crate::object::resolve(*heap, this as int, "data"@) is Obj && r is Err) ==> (r->Err_0
            == VmError::DepthExceeded || r->Err_0 == VmError::StringEncoding || r->Err_0
            == VmError::NumberRange),
{
    let data_name = String::from_str("data");
    let dv = heap.get(this, &data_name);
    let d = match dv.as_object() {
        Some(d) => d,
        None => {
            return Err(VmError::TypeCoercion);
        },
    };
    proof {
        crate::object::lemma_lookup_live(*heap, this as int, "data"@, Set::empty());
    }
    let fuel = heap.len();
    let text = match heap.serialize_to_text(d, fuel) {
        Ok(t) => t,
        Err(e) => {
            return Err(e);
        },
    };
    let key = WString::from_bytes(vec![0x74u8, 0x6Du8, 0x70u8]);
    host.storage_put(&key, text);
    Ok(Value::Undefined)
}

/// `getLocal`: builds a fresh persisted-storage object — its `data` member
/// a bare object — and, when the host's storage holds saved text under the
/// fixed key, reconstructs the saved enumerable properties onto `data`.
/// Returns the new object; fails only on storage text that the decoder
/// rejects or whose reconstruction nests past the depth allowance.
pub fn get_local<H: VmHost>(
    host: &mut H,
    heap: &mut Heap,
    mc: &Mutation,
    protos: &ProtoRegistry,
    this: usize,
    args: &Vec<Value>,
) -> (r: Result<Value, VmError>)
    requires
        old(heap).wf(),
        protos.ok(*old(heap)),
    ensures
        final(heap).wf(),
        old(heap).retained_by(*final(heap)),
        r is Ok ==> ({
            let so = old(heap).cells@.len() as int;
            &&& vv(r->Ok_0) == VVal::Obj(so as usize)
            &&& final(heap).live(so)
            &&& final(heap).obj(so).is_shared_store()
            &&& final(heap).proto_of(so) == Some(protos.shared_object)
            &&& final(heap).table(so).len() == 1
            &&& has_key(final(heap).table(so), "data"@)
            &&& val_of(final(heap).table(so), "data"@) == VVal::Obj((so + 1) as usize)
            &&& attrs_of(final(heap).table(so), "data"@) == Attributes::spec_enumerable_only()
            &&& final(heap).live(so + 1)
            &&& final(heap).obj(so + 1).is_script()
            &&& final(heap).proto_of(so + 1) == Some(protos.object)
        }),
{
    let so = heap.new_shared_store(mc, Some(protos.shared_object));
    let res = constructor(heap, mc, protos, so, args);
    proof {
        assert(res is Ok);
    }
    // the cell count both bounds the fresh handle and serves as the
    // reconstruction depth allowance below
    let n_cells = heap.len();
    let data = so + 1;
    let key = WString::from_bytes(vec![0x74u8, 0x6Du8, 0x70u8]);
    match host.storage_get(&key) {
        None => {},
        Some(saved) => {
            let parsed = match crate::doc::jv_parse_text(saved.as_str()) {
                Some(p) => p,
                None => {
                    return Err(VmError::TypeCoercion);
                },
            };
            match crate::doc::parse_json(heap, mc, protos, data, &parsed, n_cells) {
                Ok(()) => {},
                Err(e) => {
                    return Err(e);
                },
            }
        },
    }
    Ok(Value::Object(so))
}

/// Builds the persisted-storage instance prototype: a bare script object
/// under the given prototype, carrying the nine native instance members.
#[verifier::rlimit(100)]
#[verifier::spinoff_prover]
pub fn create_proto(heap: &mut Heap, mc: &Mutation, proto: usize, fn_proto: usize) -> (sp: usize)
    requires
        old(heap).wf(),
        old(heap).live(proto as int),
        old(heap).live(fn_proto as int),
    ensures
        final(heap).wf(),
        old(heap).retained_by(*final(heap)),
        final(heap).cells@.len() == old(heap).cells@.len() + 10,
        sp == old(heap).cells@.len(),
        forall|x: int| 0 <= x < old(heap).cells@.len() ==> final(heap).cells@[x] == old(
            heap,
        ).cells@[x],
        final(heap).live(sp as int),
        final(heap).obj(sp as int).is_script(),
        final(heap).proto_of(sp as int) == Some(proto),
        final(heap).table(sp as int) == seq![
            SlotV { name: "clear"@, value: VVal::Obj((sp + 1) as usize), attrs: Attributes::spec_enumerable_only() },
            SlotV { name: "close"@, value: VVal::Obj((sp + 2) as usize), attrs: Attributes::spec_enumerable_only() },
            SlotV { name: "connect"@, value: VVal::Obj((sp + 3) as usize), attrs: Attributes::spec_enumerable_only() },
            SlotV { name: "flush"@, value: VVal::Obj((sp + 4) as usize), attrs: Attributes::spec_enumerable_only() },
            SlotV { name: "getSize"@, value: VVal::Obj((sp + 5) as usize), attrs: Attributes::spec_enumerable_only() },
            SlotV { name: "send"@, value: VVal::Obj((sp + 6) as usize), attrs: Attributes::spec_enumerable_only() },
            SlotV { name: "setFps"@, value: VVal::Obj((sp + 7) as usize), attrs: Attributes::spec_enumerable_only() },
            SlotV { name: "onStatus"@, value: VVal::Obj((sp + 8) as usize), attrs: Attributes::spec_enumerable_only() },
            SlotV { name: "onSync"@, value: VVal::Obj((sp + 9) as usize), attrs: Attributes::spec_enumerable_only() },
        ],
        final(heap).obj(sp as int + 1).spec_callable() == Some(
            crate::function::FunctionPayload::Native(NativeFunction::SharedClear),
        ),
        final(heap).proto_of(sp as int + 1) == Some(fn_proto),
        final(heap).obj(sp as int + 2).spec_callable() == Some(
            crate::function::FunctionPayload::Native(NativeFunction::SharedClose),
        ),
        final(heap).proto_of(sp as int + 2) == Some(fn_proto),
        final(heap).obj(sp as int + 3).spec_callable() == Some(
            crate::function::FunctionPayload::Native(NativeFunction::SharedConnect),
        ),
        final(heap).proto_of(sp as int + 3) == Some(fn_proto),
        final(heap).obj(sp as int + 4).spec_callable() == Some(
            crate::function::FunctionPayload::Native(NativeFunction::SharedFlush),
        ),
        final(heap).proto_of(sp as int + 4) == Some(fn_proto),
        final(heap).obj(sp as int + 5).spec_callable() == Some(
            crate::function::FunctionPayload::Native(NativeFunction::SharedGetSize),
        ),
        final(heap).proto_of(sp as int + 5) == Some(fn_proto),
        final(heap).obj(sp as int + 6).spec_callable() == Some(
            crate::function::FunctionPayload::Native(NativeFunction::SharedSend),
        ),
        final(heap).proto_of(sp as int + 6) == Some(fn_proto),
        final(heap).obj(sp as int + 7).spec_callable() == Some(
            crate::function::FunctionPayload::Native(NativeFunction::SharedSetFps),
        ),
        final(heap).proto_of(sp as int + 7) == Some(fn_proto),
        final(heap).obj(sp as int + 8).spec_callable() == Some(
            crate::function::FunctionPayload::Native(NativeFunction::SharedOnStatus),
        ),
        final(heap).proto_of(sp as int + 8) == Some(fn_proto),
        final(heap).obj(sp as int + 9).spec_callable() == Some(
            crate::function::FunctionPayload::Native(NativeFunction::SharedOnSync),
        ),
        final(heap).proto_of(sp as int + 9) == Some(fn_proto),
{
    let sp = heap.new_object(mc, Some(proto));
    proof {
        reveal_strlit("clear");
        reveal_strlit("close");
        reveal_strlit("connect");
        reveal_strlit("flush");
        reveal_strlit("getSize");
        reveal_strlit("send");
        reveal_strlit("setFps");
        reveal_strlit("onStatus");
        reveal_strlit("onSync");
        assert("clear"@[2] != "close"@[2]);
        assert("clear"@ != "close"@);
        assert("clear"@[0] != "flush"@[0]);
        assert("clear"@ != "flush"@);
        assert("close"@[0] != "flush"@[0]);
        assert("close"@ != "flush"@);
        assert("connect"@[0] != "getSize"@[0]);
        assert("connect"@ != "getSize"@);
        assert("setFps"@[0] != "onSync"@[0]);
        assert("setFps"@ != "onSync"@);
    }
    let a = Attributes::enumerable_only();
    heap.force_set_function(mc, sp, &String::from_str("clear"), NativeFunction::SharedClear, a, Some(fn_proto));
    proof {
        assert(heap.table(sp as int)[0].name == "clear"@);
    }
    proof {
        crate::property::lemma_find_idx(heap.table(sp as int), "close"@);
    }
    heap.force_set_function(mc, sp, &String::from_str("close"), NativeFunction::SharedClose, a, Some(fn_proto));
    proof {
        assert(heap.table(sp as int)[0].name == "clear"@);
        assert(heap.table(sp as int)[1].name == "close"@);
    }
    proof {
        crate::property::lemma_find_idx(heap.table(sp as int), "connect"@);
    }
    heap.force_set_function(mc, sp, &String::from_str("connect"), NativeFunction::SharedConnect, a, Some(fn_proto));
    proof {
        assert(heap.table(sp as int)[0].name == "clear"@);
        assert(heap.table(sp as int)[1].name == "close"@);
        assert(heap.table(sp as int)[2].name == "connect"@);
    }
    proof {
        crate::property::lemma_find_idx(heap.table(sp as int), "flush"@);
    }
    heap.force_set_function(mc, sp, &String::from_str("flush"), NativeFunction::SharedFlush, a, Some(fn_proto));
    proof {
        assert(heap.table(sp as int)[0].name == "clear"@);
        assert(heap.table(sp as int)[1].name == "close"@);
        assert(heap.table(sp as int)[2].name == "connect"@);
        assert(heap.table(sp as int)[3].name == "flush"@);
    }
    proof {
        crate::property::lemma_find_idx(heap.table(sp as int), "getSize"@);
    }
    heap.force_set_function(mc, sp, &String::from_str("getSize"), NativeFunction::SharedGetSize, a, Some(fn_proto));
    proof {
        assert(heap.table(sp as int)[0].name == "clear"@);
        assert(heap.table(sp as int)[1].name == "close"@);
        assert(heap.table(sp as int)[2].name == "connect"@);
        assert(heap.table(sp as int)[3].name == "flush"@);
        assert(heap.table(sp as int)[4].name == "getSize"@);
    }
    proof {
        crate::property::lemma_find_idx(heap.table(sp as int), "send"@);
    }
    heap.force_set_function(mc, sp, &String::from_str("send"), NativeFunction::SharedSend, a, Some(fn_proto));
    proof {
        assert(heap.table(sp as int)[0].name == "clear"@);
        assert(heap.table(sp as int)[1].name == "close"@);
        assert(heap.table(sp as int)[2].name == "connect"@);
        assert(heap.table(sp as int)[3].name == "flush"@);
        assert(heap.table(sp as int)[4].name == "getSize"@);
        assert(heap.table(sp as int)[5].name == "send"@);
    }
    proof {
        crate::property::lemma_find_idx(heap.table(sp as int), "setFps"@);
    }
    heap.force_set_function(mc, sp, &String::from_str("setFps"), NativeFunction::SharedSetFps, a, Some(fn_proto));
    proof {
        assert(heap.table(sp as int)[0].name == "clear"@);
        assert(heap.table(sp as int)[1].name == "close"@);
        assert(heap.table(sp as int)[2].name == "connect"@);
        assert(heap.table(sp as int)[3].name == "flush"@);
        assert(heap.table(sp as int)[4].name == "getSize"@);
        assert(heap.table(sp as int)[5].name == "send"@);
        assert(heap.table(sp as int)[6].name == "setFps"@);
    }
    proof {
        crate::property::lemma_find_idx(heap.table(sp as int), "onStatus"@);
    }
    heap.force_set_function(mc, sp, &String::from_str("onStatus"), NativeFunction::SharedOnStatus, a, Some(fn_proto));
    proof {
        assert(heap.table(sp as int)[0].name == "clear"@);
        assert(heap.table(sp as int)[1].name == "close"@);
        assert(heap.table(sp as int)[2].name == "connect"@);
        assert(heap.table(sp as int)[3].name == "flush"@);
        assert(heap.table(sp as int)[4].name == "getSize"@);
        assert(heap.table(sp as int)[5].name == "send"@);
        assert(heap.table(sp as int)[6].name == "setFps"@);
        assert(heap.table(sp as int)[7].name == "onStatus"@);
    }
    proof {
        crate::property::lemma_find_idx(heap.table(sp as int), "onSync"@);
    }
    heap.force_set_function(mc, sp, &String::from_str("onSync"), NativeFunction::SharedOnSync, a, Some(fn_proto));
    proof {
        assert(heap.table(sp as int) =~= seq![
            SlotV { name: "clear"@, value: VVal::Obj((sp + 1) as usize), attrs: Attributes::spec_enumerable_only() },
            SlotV { name: "close"@, value: VVal::Obj((sp + 2) as usize), attrs: Attributes::spec_enumerable_only() },
            SlotV { name: "connect"@, value: VVal::Obj((sp + 3) as usize), attrs: Attributes::spec_enumerable_only() },
            SlotV { name: "flush"@, value: VVal::Obj((sp + 4) as usize), attrs: Attributes::spec_enumerable_only() },
            SlotV { name: "getSize"@, value: VVal::Obj((sp + 5) as usize), attrs: Attributes::spec_enumerable_only() },
            SlotV { name: "send"@, value: VVal::Obj((sp + 6) as usize), attrs: Attributes::spec_enumerable_only() },
            SlotV { name: "setFps"@, value: VVal::Obj((sp + 7) as usize), attrs: Attributes::spec_enumerable_only() },
            SlotV { name: "onStatus"@, value: VVal::Obj((sp + 8) as usize), attrs: Attributes::spec_enumerable_only() },
            SlotV { name: "onSync"@, value: VVal::Obj((sp + 9) as usize), attrs: Attributes::spec_enumerable_only() },
        ]);
        assert(heap.table(sp as int)[0].name == "clear"@);
        assert(heap.table(sp as int)[1].name == "close"@);
        assert(heap.table(sp as int)[2].name == "connect"@);
        assert(heap.table(sp as int)[3].name == "flush"@);
        assert(heap.table(sp as int)[4].name == "getSize"@);
        assert(heap.table(sp as int)[5].name == "send"@);
        assert(heap.table(sp as int)[6].name == "setFps"@);
        assert(heap.table(sp as int)[7].name == "onStatus"@);
        assert(heap.table(sp as int)[8].name == "onSync"@);
    }
    sp
}

/// Builds the persisted-storage class object: a native constructor
/// function whose own properties hold the class's static members, and
/// whose `prototype`-named property, when a prototype object is supplied,
/// is the shared instance prototype.
#[verifier::rlimit(100)]
#[verifier::spinoff_prover]
pub fn create_shared_object_object(
    heap: &mut Heap,
    mc: &Mutation,
    array_proto: Option<usize>,
    fn_proto: Option<usize>,
) -> (so: usize)
    requires
        old(heap).wf(),
        match array_proto {
            Some(p) => old(heap).live(p as int),
            None => true,
        },
        match fn_proto {
            Some(p) => old(heap).live(p as int),
            None => true,
        },
    ensures
        final(heap).wf(),
        old(heap).retained_by(*final(heap)),
        final(heap).cells@.len() == old(heap).cells@.len() + 6,
        so == old(heap).cells@.len(),
        forall|x: int| 0 <= x < old(heap).cells@.len() ==> final(heap).cells@[x] == old(
            heap,
        ).cells@[x],
        final(heap).live(so as int),
        final(heap).obj(so as int).is_function(),
        final(heap).obj(so as int).spec_callable() == Some(
            crate::function::FunctionPayload::Native(NativeFunction::SharedConstructor),
        ),
        final(heap).proto_of(so as int) == fn_proto,
        array_proto is Some ==> final(heap).table(so as int) == seq![
            SlotV { name: "prototype"@, value: VVal::Obj(array_proto->0), attrs: Attributes::spec_empty() },
            SlotV { name: "deleteAll"@, value: VVal::Obj((so + 1) as usize), attrs: Attributes::spec_enumerable_only() },
            SlotV { name: "getDiskUsage"@, value: VVal::Obj((so + 2) as usize), attrs: Attributes::spec_enumerable_only() },
            SlotV { name: "getLocal"@, value: VVal::Obj((so + 3) as usize), attrs: Attributes::spec_enumerable_only() },
            SlotV { name: "getRemote"@, value: VVal::Obj((so + 4) as usize), attrs: Attributes::spec_enumerable_only() },
            SlotV { name: "getMaxSize"@, value: VVal::Obj((so + 5) as usize), attrs: Attributes::spec_enumerable_only() },
        ],
        array_proto is None ==> final(heap).table(so as int) == seq![
            SlotV { name: "deleteAll"@, value: VVal::Obj((so + 1) as usize), attrs: Attributes::spec_enumerable_only() },
            SlotV { name: "getDiskUsage"@, value: VVal::Obj((so + 2) as usize), attrs: Attributes::spec_enumerable_only() },
            SlotV { name: "getLocal"@, value: VVal::Obj((so + 3) as usize), attrs: Attributes::spec_enumerable_only() },
            SlotV { name: "getRemote"@, value: VVal::Obj((so + 4) as usize), attrs: Attributes::spec_enumerable_only() },
            SlotV { name: "getMaxSize"@, value: VVal::Obj((so + 5) as usize), attrs: Attributes::spec_enumerable_only() },
        ],
        final(heap).obj(so as int + 1).spec_callable() == Some(
            crate::function::FunctionPayload::Native(NativeFunction::SharedDeleteAll),
        ),
        final(heap).proto_of(so as int + 1) == fn_proto,
        final(heap).obj(so as int + 2).spec_callable() == Some(
            crate::function::FunctionPayload::Native(NativeFunction::SharedGetDiskUsage),
        ),
        final(heap).proto_of(so as int + 2) == fn_proto,
        final(heap).obj(so as int + 3).spec_callable() == Some(
            crate::function::FunctionPayload::Native(NativeFunction::SharedGetLocal),
        ),
        final(heap).proto_of(so as int + 3) == fn_proto,
        final(heap).obj(so as int + 4).spec_callable() == Some(
            crate::function::FunctionPayload::Native(NativeFunction::SharedGetRemote),
        ),
        final(heap).proto_of(so as int + 4) == fn_proto,
        final(heap).obj(so as int + 5).spec_callable() == Some(
            crate::function::FunctionPayload::Native(NativeFunction::SharedGetMaxSize),
        ),
        final(heap).proto_of(so as int + 5) == fn_proto,
        crate::property::has_key(final(heap).table(so as int), "prototype"@) <==> array_proto
            is Some,
        array_proto is Some ==> crate::property::val_of(final(heap).table(so as int), "prototype"@)
            == VVal::Obj(array_proto->0),
        crate::property::has_key(final(heap).table(so as int), "getLocal"@),
{
    let so = heap.new_function(
        mc,
        crate::function::FunctionPayload::Native(NativeFunction::SharedConstructor),
        fn_proto,
    );
    proof {
        reveal_strlit("prototype");
        reveal_strlit("deleteAll");
        reveal_strlit("getDiskUsage");
        reveal_strlit("getLocal");
        reveal_strlit("getRemote");
        reveal_strlit("getMaxSize");
        assert("deleteAll"@[0] != "getRemote"@[0]);
        assert("deleteAll"@ != "getRemote"@);
        assert("deleteAll"@[0] != "prototype"@[0]);
        assert("deleteAll"@ != "prototype"@);
        assert("getRemote"@[0] != "prototype"@[0]);
        assert("getRemote"@ != "prototype"@);
    }
    match array_proto {
        Some(p) => {
            heap.define_value(
                mc,
                so,
                &String::from_str("prototype"),
                Value::Object(p),
                Attributes::empty(),
            );
        },
        None => {},
    }
    let a = Attributes::enumerable_only();
    proof {
        crate::property::lemma_find_idx(heap.table(so as int), "deleteAll"@);
    }
    heap.force_set_function(mc, so, &String::from_str("deleteAll"), NativeFunction::SharedDeleteAll, a, fn_proto);
    proof {
        let off: int = if array_proto is Some { 1 } else { 0 };
        assert(heap.table(so as int)[off + 0].name == "deleteAll"@);
    }
    proof {
        crate::property::lemma_find_idx(heap.table(so as int), "getDiskUsage"@);
    }
    heap.force_set_function(mc, so, &String::from_str("getDiskUsage"), NativeFunction::SharedGetDiskUsage, a, fn_proto);
    proof {
        let off: int = if array_proto is Some { 1 } else { 0 };
        assert(heap.table(so as int)[off + 0].name == "deleteAll"@);
        assert(heap.table(so as int)[off + 1].name == "getDiskUsage"@);
    }
    proof {
        crate::property::lemma_find_idx(heap.table(so as int), "getLocal"@);
    }
    heap.force_set_function(mc, so, &String::from_str("getLocal"), NativeFunction::SharedGetLocal, a, fn_proto);
    proof {
        let off: int = if array_proto is Some { 1 } else { 0 };
        assert(heap.table(so as int)[off + 0].name == "deleteAll"@);
        assert(heap.table(so as int)[off + 1].name == "getDiskUsage"@);
        assert(heap.table(so as int)[off + 2].name == "getLocal"@);
    }
    proof {
        crate::property::lemma_find_idx(heap.table(so as int), "getRemote"@);
    }
    heap.force_set_function(mc, so, &String::from_str("getRemote"), NativeFunction::SharedGetRemote, a, fn_proto);
    proof {
        let off: int = if array_proto is Some { 1 } else { 0 };
        assert(heap.table(so as int)[off + 0].name == "deleteAll"@);
        assert(heap.table(so as int)[off + 1].name == "getDiskUsage"@);
        assert(heap.table(so as int)[off + 2].name == "getLocal"@);
        assert(heap.table(so as int)[off + 3].name == "getRemote"@);
    }
    proof {
        crate::property::lemma_find_idx(heap.table(so as int), "getMaxSize"@);
    }
    heap.force_set_function(mc, so, &String::from_str("getMaxSize"), NativeFunction::SharedGetMaxSize, a, fn_proto);
    proof {
        let off: int = if array_proto is Some { 1 } else { 0 };
        assert(heap.table(so as int)[off + 0].name == "deleteAll"@);
        assert(heap.table(so as int)[off + 1].name == "getDiskUsage"@);
        assert(heap.table(so as int)[off + 2].name == "getLocal"@);
        assert(heap.table(so as int)[off + 3].name == "getRemote"@);
        assert(heap.table(so as int)[off + 4].name == "getMaxSize"@);
    }
    proof {
        let t = heap.table(so as int);
        let off: int = if array_proto is Some {
            1
        } else {
            0
        };
        crate::property::lemma_find_at(t, "getLocal"@, off + 2);
        if array_proto is Some {
            crate::property::lemma_find_at(t, "prototype"@, 0);
            assert(t =~= seq![
                SlotV { name: "prototype"@, value: VVal::Obj(array_proto->0), attrs: Attributes::spec_empty() },
                SlotV { name: "deleteAll"@, value: VVal::Obj((so + 1) as usize), attrs: Attributes::spec_enumerable_only() },
            SlotV { name: "getDiskUsage"@, value: VVal::Obj((so + 2) as usize), attrs: Attributes::spec_enumerable_only() },
            SlotV { name: "getLocal"@, value: VVal::Obj((so + 3) as usize), attrs: Attributes::spec_enumerable_only() },
            SlotV { name: "getRemote"@, value: VVal::Obj((so + 4) as usize), attrs: Attributes::spec_enumerable_only() },
            SlotV { name: "getMaxSize"@, value: VVal::Obj((so + 5) as usize), attrs: Attributes::spec_enumerable_only() },
            ]);
        } else {
            assert(t =~= seq![
                SlotV { name: "deleteAll"@, value: VVal::Obj((so + 1) as usize), attrs: Attributes::spec_enumerable_only() },
            SlotV { name: "getDiskUsage"@, value: VVal::Obj((so + 2) as usize), attrs: Attributes::spec_enumerable_only() },
            SlotV { name: "getLocal"@, value: VVal::Obj((so + 3) as usize), attrs: Attributes::spec_enumerable_only() },
            SlotV { name: "getRemote"@, value: VVal::Obj((so + 4) as usize), attrs: Attributes::spec_enumerable_only() },
            SlotV { name: "getMaxSize"@, value: VVal::Obj((so + 5) as usize), attrs: Attributes::spec_enumerable_only() },
            ]);
            crate::property::lemma_find_idx(t, "prototype"@);
            if crate::property::has_key(t, "prototype"@) {
                assert(t[crate::property::find_idx(t, "prototype"@)].name == "prototype"@);
                assert(false);
            }
        }
    }
    so
}

} // verus!
