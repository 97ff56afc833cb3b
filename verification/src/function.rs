//! Function payloads and the dispatch protocol.
//!
//! A callable object carries either a native payload — one of the closed set
//! of built-in handlers, or a host-registered handler reached through the
//! [`VmHost`] trait — or a scripted payload, a reference to bytecode plus a
//! captured environment, which dispatch hands to the external interpreter
//! through the same trait.

use vstd::prelude::*;

use crate::heap::{Heap, Mutation};
use crate::object::ProtoRegistry;
use crate::value::{vv, Completion, Value, VmError, VVal};
use crate::wstr::WString;

verus! {

/// The closed set of native handlers this core ships. Host code registers
/// further handlers under a numeric identifier of its own.
#[derive(Clone, Copy, PartialEq, Eq, Structural, Debug)]
pub enum NativeFunction {
    /// `Function` constructor: returns `Undefined`.
    FunctionConstructor,
    /// `Function.prototype.call`: returns `Undefined`.
    FunctionCall,
    /// `Function.prototype.apply`: returns `Undefined`.
    FunctionApply,
    /// Persisted-storage class constructor: wires the `data` sub-object.
    SharedConstructor,
    /// Static members of the persisted-storage class.
    SharedDeleteAll,
    SharedGetDiskUsage,
    SharedGetLocal,
    SharedGetRemote,
    SharedGetMaxSize,
    /// Instance members of the persisted-storage prototype.
    SharedClear,
    SharedClose,
    SharedConnect,
    SharedFlush,
    SharedGetSize,
    SharedSend,
    SharedSetFps,
    SharedOnStatus,
    SharedOnSync,
    /// A handler the host registered under its own identifier.
    Host(u32),
}

/// A scripted callable: bytecode plus its captured environment.
#[derive(Debug)]
pub struct ScriptFunction {
    pub code: Vec<u8>,
    /// The heap cell of the captured scope object, if the closure captured
    /// one.
    pub scope: Option<usize>,
}

/// What a callable object's `callable` field holds.
#[derive(Debug)]
pub enum FunctionPayload {
    Native(NativeFunction),
    Scripted(ScriptFunction),
}

impl FunctionPayload {
    /// The captured environment cell, for payloads that hold one.
    pub open spec fn scope_of(self) -> Option<usize> {
        match self {
            FunctionPayload::Native(_) => None,
            FunctionPayload::Scripted(sf) => sf.scope,
        }
    }
}

/// The host side of dispatch: storage, host-registered handlers, and the
/// excluded bytecode interpreter. Implementations live outside this crate;
/// the two heap-touching methods carry the obligations — stated here as
/// their contract — that the heap stays well-formed and no live cell
/// vanishes, which every honest embedding meets.
pub trait VmHost {
    /// Runs a host-registered native handler.
    fn call_host(
        &mut self,
        heap: &mut Heap,
        mc: &Mutation,
        id: u32,
        this: usize,
        args: &Vec<Value>,
    ) -> (r: Result<Value, VmError>)
        requires
            old(heap).wf(),
        ensures
            final(heap).wf(),
            old(heap).retained_by(*final(heap)),
    ;

    /// Hands a scripted callable to the external bytecode interpreter.
    fn run_script(
        &mut self,
        heap: &mut Heap,
        mc: &Mutation,
        callee: &ScriptFunction,
        this: usize,
        args: &Vec<Value>,
    ) -> (r: Result<Completion, VmError>)
        requires
            old(heap).wf(),
        ensures
            final(heap).wf(),
            old(heap).retained_by(*final(heap)),
    ;

    /// Reads the persisted text stored under a name, if any.
    fn storage_get(&mut self, name: &WString) -> (r: Option<String>);

    /// Stores persisted text under a name.
    fn storage_put(&mut self, name: &WString, text: String);

    /// The byte size of the persisted entry under a name, if present.
    fn storage_size(&mut self, name: &WString) -> (r: Option<u64>);
}

impl ScriptFunction {
    /// Structural copy of a scripted payload.
    pub fn dup(&self) -> (r: ScriptFunction)
        ensures
            r.code@ == self.code@,
            r.scope == self.scope,
    {
        let code = self.code.clone();
        proof {
            assert(code@ =~= self.code@);
        }
        ScriptFunction { code, scope: self.scope }
    }
}

/// Whether a native identifier is one of the stubs that do nothing but
/// return `Undefined`.
pub open spec fn is_stub_native(nf: NativeFunction) -> bool {
    match nf {
        NativeFunction::FunctionConstructor => true,
        NativeFunction::FunctionCall => true,
        NativeFunction::FunctionApply => true,
        NativeFunction::SharedDeleteAll => true,
        NativeFunction::SharedGetDiskUsage => true,
        NativeFunction::SharedGetRemote => true,
        NativeFunction::SharedGetMaxSize => true,
        NativeFunction::SharedClose => true,
        NativeFunction::SharedConnect => true,
        NativeFunction::SharedSend => true,
        NativeFunction::SharedSetFps => true,
        NativeFunction::SharedOnStatus => true,
        NativeFunction::SharedOnSync => true,
        _ => false,
    }
}

/// The invocation convention shared by native and script-backed callables:
/// dispatches on the callee's function payload with an explicit
/// this-binding and argument sequence; there is no arity enforcement at
/// this layer, and a native handler's result is unconditionally an
/// ordinary return. An uncallable callee is the one dispatch error.
pub fn invoke<H: VmHost>(
    host: &mut H,
    heap: &mut Heap,
    mc: &Mutation,
    protos: &ProtoRegistry,
    callee: usize,
    this: usize,
    args: &Vec<Value>,
) -> (r: Result<Value, VmError>)
    requires
        old(heap).wf(),
        old(heap).live(callee as int),
        old(heap).live(this as int),
        protos.ok(*old(heap)),
    ensures
        final(heap).wf(),
        old(heap).retained_by(*final(heap)),
        !(old(heap).obj(callee as int).spec_callable() is Some) ==> r == Err::<
            Value,
            VmError,
        >(VmError::NotCallable) && *final(heap) == *old(heap),
        (match old(heap).obj(callee as int).spec_callable() {
            Some(FunctionPayload::Native(nf)) => is_stub_native(nf),
            _ => false,
        }) ==> *final(heap) == *old(heap) && r is Ok && vv(r->Ok_0) == VVal::Undefined,
        old(heap).obj(callee as int).spec_callable() == Some(
            FunctionPayload::Native(NativeFunction::SharedConstructor),
        ) ==> r is Ok && vv(r->Ok_0) == VVal::Undefined && final(heap).proto_of(this as int)
            == old(heap).proto_of(this as int) && final(heap).live(this as int),
        old(heap).obj(callee as int).spec_callable() == Some(
            FunctionPayload::Native(NativeFunction::SharedGetSize),
        ) ==> *final(heap) == *old(heap) && (r is Err <==> (args@.len() > 0 && vv(args@[0])
            is Obj)) && (r is Ok ==> vv(r->Ok_0) is Num),
        old(heap).obj(callee as int).spec_callable() == Some(
            FunctionPayload::Native(NativeFunction::SharedClear),
        ) ==> ((crate::object::resolve(*old(heap), this as int, "data"@) is Obj) ==> r is Ok && vv(
            r->Ok_0,
        ) == VVal::Undefined) && (!(crate::object::resolve(*old(heap), this as int, "data"@)
            is Obj) ==> r is Err),
        old(heap).obj(callee as int).spec_callable() == Some(
            FunctionPayload::Native(NativeFunction::SharedFlush),
        ) ==> *final(heap) == *old(heap) && (r is Ok ==> vv(r->Ok_0) == VVal::Undefined) && ((
        crate::object::resolve(*old(heap), this as int, "data"@) is Obj && crate::doc::serial_ok(
            *old(heap),
            crate::object::resolve(*old(heap), this as int, "data"@)->Obj_0 as int,
            old(heap).cells@.len() as nat,
        )) ==> r is Ok),
        old(heap).obj(callee as int).spec_callable() == Some(
            FunctionPayload::Native(NativeFunction::SharedGetLocal),
        ) ==> (r is Ok ==> vv(r->Ok_0) == VVal::Obj(old(heap).cells@.len() as usize)),
{
    let payload = match heap.read(callee).as_function() {
        None => {
            return Err(VmError::NotCallable);
        },
        Some(FunctionPayload::Native(nf)) => FunctionPayload::Native(*nf),
        Some(FunctionPayload::Scripted(sf)) => FunctionPayload::Scripted(sf.dup()),
    };
    match payload {
        FunctionPayload::Native(nf) => match nf {
            NativeFunction::FunctionConstructor => crate::globals::function::constructor(
                heap,
                mc,
                this,
                args,
            ),
            NativeFunction::FunctionCall => crate::globals::function::call(heap, mc, this, args),
            NativeFunction::FunctionApply => crate::globals::function::apply(heap, mc, this, args),
            NativeFunction::SharedConstructor => crate::globals::shared_object::constructor(
                heap,
                mc,
                protos,
                this,
                args,
            ),
            NativeFunction::SharedDeleteAll => crate::globals::shared_object::delete_all(
                heap,
                mc,
                this,
                args,
            ),
            NativeFunction::SharedGetDiskUsage => crate::globals::shared_object::get_disk_usage(
                heap,
                mc,
                this,
                args,
            ),
            NativeFunction::SharedGetLocal => crate::globals::shared_object::get_local(
                host,
                heap,
                mc,
                protos,
                this,
                args,
            ),
            NativeFunction::SharedGetRemote => crate::globals::shared_object::get_remote(
                heap,
                mc,
                this,
                args,
            ),
            NativeFunction::SharedGetMaxSize => crate::globals::shared_object::get_max_size(
                heap,
                mc,
                this,
                args,
            ),
            NativeFunction::SharedClear => crate::globals::shared_object::clear(
                heap,
                mc,
                this,
                args,
            ),
            NativeFunction::SharedClose => crate::globals::shared_object::close(
                heap,
                mc,
                this,
                args,
            ),
            NativeFunction::SharedConnect => crate::globals::shared_object::connect(
                heap,
                mc,
                this,
                args,
            ),
            NativeFunction::SharedFlush => crate::globals::shared_object::flush(
                host,
                heap,
                mc,
                this,
                args,
            ),
            NativeFunction::SharedGetSize => crate::globals::shared_object::get_size(
                host,
                heap,
                mc,
                this,
                args,
            ),
            NativeFunction::SharedSend => crate::globals::shared_object::send(
                heap,
                mc,
                this,
                args,
            ),
            NativeFunction::SharedSetFps => crate::globals::shared_object::set_fps(
                heap,
                mc,
                this,
                args,
            ),
            NativeFunction::SharedOnStatus => crate::globals::shared_object::on_status(
                heap,
                mc,
                this,
                args,
            ),
            NativeFunction::SharedOnSync => crate::globals::shared_object::on_sync(
                heap,
                mc,
                this,
                args,
            ),
            NativeFunction::Host(id) => host.call_host(heap, mc, id, this, args),
        },
        FunctionPayload::Scripted(sf) => {
            let completion = match host.run_script(heap, mc, &sf, this, args) {
                Ok(c) => c,
                Err(e) => {
                    return Err(e);
                },
            };
            Ok(completion.into_value())
        },
    }
}

/// Constructible dispatch: pre-allocates a bare object under the callee's
/// `prototype`-named property and calls the callee with it as the
/// this-binding; the constructor's return value is ignored unless it is
/// itself an object, which then supersedes the pre-allocated one.
pub fn construct<H: VmHost>(
    host: &mut H,
    heap: &mut Heap,
    mc: &Mutation,
    protos: &ProtoRegistry,
    callee: usize,
    args: &Vec<Value>,
) -> (r: Result<Value, VmError>)
    requires
        old(heap).wf(),
        old(heap).live(callee as int),
        protos.ok(*old(heap)),
    ensures
        final(heap).wf(),
        old(heap).retained_by(*final(heap)),
        r is Ok ==> vv(r->Ok_0) is Obj && final(heap).live(vv(r->Ok_0)->Obj_0 as int),
        !(old(heap).obj(callee as int).spec_callable() is Some) ==> r == Err::<
            Value,
            VmError,
        >(VmError::NotCallable),
        (match old(heap).obj(callee as int).spec_callable() {
            Some(FunctionPayload::Native(nf)) => is_stub_native(nf) || nf
                == NativeFunction::SharedConstructor,
            _ => false,
        }) ==> r is Ok && vv(r->Ok_0) == VVal::Obj(old(heap).cells@.len() as usize)
            && final(heap).proto_of(old(heap).cells@.len() as int) == (match crate::object::resolve(
            *old(heap),
            callee as int,
            "prototype"@,
        ) {
            VVal::Obj(p) => Some(p),
            _ => None,
        }),
{
    let proto_name = String::from_str("prototype");
    let pv = heap.get(callee, &proto_name);
    proof {
        crate::object::lemma_lookup_live(*heap, callee as int, "prototype"@, Set::empty());
    }
    let proto = pv.as_object();
    let this = heap.new_object(mc, proto);
    let res = match invoke(host, heap, mc, protos, callee, this, args) {
        Ok(v) => v,
        Err(e) => {
            return Err(e);
        },
    };
    match res.as_object() {
        Some(o) => {
            if o < heap.len() {
                let alive = match heap.cells[o] {
                    Some(_) => true,
                    None => false,
                };
                if alive {
                    return Ok(Value::Object(o));
                }
            }
            Ok(Value::Object(this))
        },
        None => Ok(Value::Object(this)),
    }
}

} // verus!
