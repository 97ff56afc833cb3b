//! The `Function` global class: its trivial natives and its prototype.

use vstd::prelude::*;

use crate::Attributes;
use crate::heap::{Heap, Mutation};
use crate::property::{has_key, SlotV};
use crate::value::{vv, Value, VmError, VVal};
use crate::function::{FunctionPayload, NativeFunction};

verus! {

/// Implements the `Function` constructor: returns `Undefined` and leaves
/// the heap untouched.
pub fn constructor(heap: &mut Heap, mc: &Mutation, this: usize, args: &Vec<Value>) -> (r: Result<
    Value,
    VmError,
>)
    ensures
        *final(heap) == *old(heap),
        r is Ok && vv(r->Ok_0) == VVal::Undefined,
{
    Ok(Value::Undefined)
}

/// Implements `Function.prototype.call`: returns `Undefined` and leaves the
/// heap untouched.
pub fn call(heap: &mut Heap, mc: &Mutation, this: usize, args: &Vec<Value>) -> (r: Result<
    Value,
    VmError,
>)
    ensures
        *final(heap) == *old(heap),
        r is Ok && vv(r->Ok_0) == VVal::Undefined,
{
    Ok(Value::Undefined)
}

/// Implements `Function.prototype.apply`: returns `Undefined` and leaves
/// the heap untouched.
pub fn apply(heap: &mut Heap, mc: &Mutation, this: usize, args: &Vec<Value>) -> (r: Result<
    Value,
    VmError,
>)
    ensures
        *final(heap) == *old(heap),
        r is Ok && vv(r->Ok_0) == VVal::Undefined,
{
    Ok(Value::Undefined)
}

/// Partially constructs `Function.prototype`: a bare object under the given
/// prototype, carrying native `call` and `apply` members. Cross-linked
/// properties are left for the caller to wire.
pub fn create_proto(heap: &mut Heap, mc: &Mutation, proto: usize) -> (fp: usize)
    requires
        old(heap).wf(),
        old(heap).live(proto as int),
    ensures
        final(heap).wf(),
        old(heap).retained_by(*final(heap)),
        final(heap).cells@.len() == old(heap).cells@.len() + 3,
        fp == old(heap).cells@.len(),
        forall|x: int| 0 <= x < old(heap).cells@.len() ==> final(heap).cells@[x] == old(
            heap,
        ).cells@[x],
        final(heap).live(fp as int),
        final(heap).obj(fp as int).is_script(),
        final(heap).proto_of(fp as int) == Some(proto),
        final(heap).table(fp as int) == seq![
            SlotV {
                name: "call"@,
                value: VVal::Obj((fp + 1) as usize),
                attrs: Attributes::spec_enumerable_only(),
            },
            SlotV {
                name: "apply"@,
                value: VVal::Obj((fp + 2) as usize),
                attrs: Attributes::spec_enumerable_only(),
            },
        ],
        final(heap).obj(fp as int + 1).spec_callable() == Some(
            FunctionPayload::Native(NativeFunction::FunctionCall),
        ),
        final(heap).obj(fp as int + 2).spec_callable() == Some(
            FunctionPayload::Native(NativeFunction::FunctionApply),
        ),
        final(heap).proto_of(fp as int + 1) == Some(fp),
        final(heap).proto_of(fp as int + 2) == Some(fp),
{
    let fp = heap.new_object(mc, Some(proto));
    let call_name = String::from_str("call");
    let apply_name = String::from_str("apply");
    proof {
        reveal_strlit("call");
        reveal_strlit("apply");
        assert("call"@.len() != "apply"@.len());
        assert("call"@ != "apply"@);
    }
    heap.force_set_function(
        mc,
        fp,
        &call_name,
        NativeFunction::FunctionCall,
        Attributes::enumerable_only(),
        Some(fp),
    );
    proof {
        crate::property::lemma_find_idx(heap.table(fp as int), "apply"@);
    }
    heap.force_set_function(
        mc,
        fp,
        &apply_name,
        NativeFunction::FunctionApply,
        Attributes::enumerable_only(),
        Some(fp),
    );
    proof {
        assert(final(heap).table(fp as int) =~= seq![
            SlotV {
                name: "call"@,
                value: VVal::Obj((fp + 1) as usize),
                attrs: Attributes::spec_enumerable_only(),
            },
            SlotV {
                name: "apply"@,
                value: VVal::Obj((fp + 2) as usize),
                attrs: Attributes::spec_enumerable_only(),
            },
        ]);
    }
    fp
}

} // verus!
