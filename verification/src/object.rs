//! The object capability interface: prototype-chain resolution, script-level
//! property access, and the construction protocol.
//!
//! Reading a property traverses the prototype chain; writing never does —
//! `set` always operates on the receiver's own table, creating a slot with
//! the default attributes if none exists. That asymmetry is the core
//! invariant of prototype-based inheritance. A chain may be cyclic;
//! resolution visits each cell at most once and treats a revisit as a miss.

use vstd::prelude::*;

use crate::Attributes;
use crate::function::{FunctionPayload, NativeFunction};
use crate::heap::{Heap, HeapObj, Mutation, NativeKind, ObjBase};
use crate::property::{attrs_of, enum_keys, find_idx, has_key, key_views, val_of, PropertyTable,
    SlotV};
use crate::value::{vv, VVal, Value};
use vstd::set_lib::{lemma_int_range, lemma_len_subset};

verus! {

/// The registry of current prototypes, passed explicitly to every
/// construction call instead of being read from ambient global state.
#[derive(Clone, Copy, Debug)]
pub struct ProtoRegistry {
    pub object: usize,
    pub function: usize,
    pub shared_object: usize,
    pub bevel_filter: usize,
}

impl ProtoRegistry {
    /// All registered prototypes are live in the given heap.
    pub open spec fn ok(self, heap: Heap) -> bool {
        heap.live(self.object as int) && heap.live(self.function as int) && heap.live(
            self.shared_object as int,
        ) && heap.live(self.bevel_filter as int)
    }
}

/// The cell indices a heap can hold.
pub open spec fn heap_dom(heap: Heap) -> Set<int> {
    vstd::set_lib::set_int_range(0, heap.cells@.len() as int)
}

/// Prototype-chain resolution: the value of `k` on the first object along
/// the chain from `h` that owns a slot of that name; `Undefined` past the
/// end of the chain, and on a revisit of an already-visited cell (a cyclic
/// chain resolves like a chain that ends there).
pub open spec fn lookup_v(heap: Heap, h: int, k: Seq<char>, vis: Set<int>) -> VVal
    decreases heap.cells@.len() - vis.len(),
    when vis.finite() && vis.subset_of(heap_dom(heap))
    via lookup_v_dec
{
    if vis.contains(h) || !heap.live(h) {
        VVal::Undefined
    } else if has_key(heap.table(h), k) {
        val_of(heap.table(h), k)
    } else {
        match heap.proto_of(h) {
            None => VVal::Undefined,
            Some(p) => lookup_v(heap, p as int, k, vis.insert(h)),
        }
    }
}

#[via_fn]
proof fn lookup_v_dec(heap: Heap, h: int, k: Seq<char>, vis: Set<int>) {
    lemma_int_range(0, heap.cells@.len() as int);
    lemma_len_subset(vis, heap_dom(heap));
    if !vis.contains(h) && heap.live(h) {
        lemma_len_subset(vis.insert(h), heap_dom(heap));
    }
}

/// Whether some object along the chain from `h` owns a slot named `k`,
/// under the same traversal as `lookup_v`.
pub open spec fn chain_has(heap: Heap, h: int, k: Seq<char>, vis: Set<int>) -> bool
    decreases heap.cells@.len() - vis.len(),
    when vis.finite() && vis.subset_of(heap_dom(heap))
    via chain_has_dec
{
    if vis.contains(h) || !heap.live(h) {
        false
    } else if has_key(heap.table(h), k) {
        true
    } else {
        match heap.proto_of(h) {
            None => false,
            Some(p) => chain_has(heap, p as int, k, vis.insert(h)),
        }
    }
}

#[via_fn]
proof fn chain_has_dec(heap: Heap, h: int, k: Seq<char>, vis: Set<int>) {
    lemma_int_range(0, heap.cells@.len() as int);
    lemma_len_subset(vis, heap_dom(heap));
    if !vis.contains(h) && heap.live(h) {
        lemma_len_subset(vis.insert(h), heap_dom(heap));
    }
}

/// What `get` returns: resolution from a fresh traversal.
pub open spec fn resolve(heap: Heap, h: int, k: Seq<char>) -> VVal {
    lookup_v(heap, h, k, Set::empty())
}

impl Heap {
    /// Reads a property: the receiver's own slot if it has one, else the
    /// prototype chain's answer, else `Undefined`.
    pub fn get(&self, h: usize, name: &String) -> (r: Value)
        requires
            self.wf(),
            self.live(h as int),
        ensures
            vv(r) == resolve(*self, h as int, name@),
    {
        let n = self.cells.len();
        let mut visited: Vec<bool> = Vec::new();
        let mut i: usize = 0;
        while i < n
            invariant
                i <= n,
                visited@.len() == i,
                forall|j: int| 0 <= j < i ==> !visited@[j],
            decreases n - i,
        {
            visited.push(false);
            i += 1;
        }
        let mut cur: usize = h;
        let mut card: usize = 0;
        let ghost mut gvis: Set<int> = Set::empty();
        proof {
            lemma_int_range(0, n as int);
        }
        loop
            invariant
                self.wf(),
                n == self.cells@.len(),
                visited@.len() == n,
                forall|i: int| gvis.contains(i) <==> (0 <= i < n && visited@[i]),
                gvis.finite(),
                gvis.subset_of(heap_dom(*self)),
                gvis.len() == card,
                card <= n,
                cur < n,
                self.live(cur as int),
                resolve(*self, h as int, name@) == lookup_v(*self, cur as int, name@, gvis),
            decreases n - card,
        {
            proof {
                lemma_int_range(0, n as int);
            }
            if visited[cur] {
                proof {
                    assert(gvis.contains(cur as int));
                }
                return Value::Undefined;
            }
            let o = self.read(cur);
            match o.base.table.get_own(name) {
                Some(v) => {
                    proof {
                        assert(!gvis.contains(cur as int));
                        assert(lookup_v(*self, cur as int, name@, gvis) == val_of(
                            self.table(cur as int),
                            name@,
                        ));
                    }
                    return v.dup();
                },
                None => {
                    match o.base.proto {
                        None => {
                            proof {
                                assert(!gvis.contains(cur as int));
                            }
                            return Value::Undefined;
                        },
                        Some(p) => {
                            visited[cur] = true;
                            proof {
                                let next = gvis.insert(cur as int);
                                assert(next.len() == gvis.len() + 1);
                                lemma_len_subset(next, heap_dom(*self));
                                gvis = next;
                            }
                            card += 1;
                            cur = p;
                        },
                    }
                },
            }
        }
    }

    /// Whether a property of this name is readable on the receiver or along
    /// its prototype chain.
    pub fn has(&self, h: usize, name: &String) -> (r: bool)
        requires
            self.wf(),
            self.live(h as int),
        ensures
            r == chain_has(*self, h as int, name@, Set::empty()),
    {
        let n = self.cells.len();
        let mut visited: Vec<bool> = Vec::new();
        let mut i: usize = 0;
        while i < n
            invariant
                i <= n,
                visited@.len() == i,
                forall|j: int| 0 <= j < i ==> !visited@[j],
            decreases n - i,
        {
            visited.push(false);
            i += 1;
        }
        let mut cur: usize = h;
        let mut card: usize = 0;
        let ghost mut gvis: Set<int> = Set::empty();
        proof {
            lemma_int_range(0, n as int);
        }
        loop
            invariant
                self.wf(),
                n == self.cells@.len(),
                visited@.len() == n,
                forall|i: int| gvis.contains(i) <==> (0 <= i < n && visited@[i]),
                gvis.finite(),
                gvis.subset_of(heap_dom(*self)),
                gvis.len() == card,
                card <= n,
                cur < n,
                self.live(cur as int),
                chain_has(*self, h as int, name@, Set::empty()) == chain_has(
                    *self,
                    cur as int,
                    name@,
                    gvis,
                ),
            decreases n - card,
        {
            proof {
                lemma_int_range(0, n as int);
            }
            if visited[cur] {
                proof {
                    assert(gvis.contains(cur as int));
                }
                return false;
            }
            let o = self.read(cur);
            match o.base.table.get_own(name) {
                Some(_) => {
                    proof {
                        assert(!gvis.contains(cur as int));
                    }
                    return true;
                },
                None => {
                    match o.base.proto {
                        None => {
                            proof {
                                assert(!gvis.contains(cur as int));
                            }
                            return false;
                        },
                        Some(p) => {
                            visited[cur] = true;
                            proof {
                                let next = gvis.insert(cur as int);
                                assert(next.len() == gvis.len() + 1);
                                lemma_len_subset(next, heap_dom(*self));
                                gvis = next;
                            }
                            card += 1;
                            cur = p;
                        },
                    }
                },
            }
        }
    }

    /// Script-level write: always the receiver's own table, never the
    /// prototype chain. A missing slot is created with the default
    /// attributes (enumerable); an existing one keeps its position and
    /// attributes and takes the new value, unless flagged read-only, in
    /// which case the call is a silent no-op.
    pub fn set(&mut self, mc: &Mutation, h: usize, name: &String, value: Value)
        requires
            old(self).wf(),
            old(self).live(h as int),
            (vv(value) is Obj) ==> old(self).live(vv(value)->Obj_0 as int),
        ensures
            final(self).wf(),
            final(self).cells@.len() == old(self).cells@.len(),
            forall|x: int| 0 <= x < old(self).cells@.len() && x != h ==> final(self).cells@[x]
                == old(self).cells@[x],
            final(self).live(h as int),
            final(self).proto_of(h as int) == old(self).proto_of(h as int),
            final(self).obj(h as int).kind == old(self).obj(h as int).kind,
            !has_key(old(self).table(h as int), name@) ==> final(self).table(h as int) == old(
                self,
            ).table(h as int).push(
                SlotV { name: name@, value: vv(value), attrs: Attributes::spec_enumerable_only() },
            ),
            has_key(old(self).table(h as int), name@) && attrs_of(
                old(self).table(h as int),
                name@,
            ).read_only ==> final(self).table(h as int) == old(self).table(h as int),
            has_key(old(self).table(h as int), name@) && !attrs_of(
                old(self).table(h as int),
                name@,
            ).read_only ==> final(self).table(h as int) == old(self).table(h as int).update(
                find_idx(old(self).table(h as int), name@),
                SlotV {
                    name: name@,
                    value: vv(value),
                    attrs: attrs_of(old(self).table(h as int), name@),
                },
            ),
    {
        let ghost oldheap = *self;
        let cell = &mut self.cells[h];
        match cell {
            Some(o) => {
                o.base.table.set_own(name, value, Attributes::enumerable_only());
            },
            None => {
                proof {
                    assert(false);
                }
            },
        }
        proof {
            let pret = oldheap.table(h as int);
            let newt = self.table(h as int);
            crate::property::lemma_find_idx(pret, name@);
            assert forall|j: int|
                0 <= j < newt.len() implies (#[trigger] newt[j]).value == vv(value) || (j
                < pret.len() && pret[j].value == newt[j].value) || (j + 1 < pret.len() && pret[j
                + 1].value == newt[j].value) by {
                if !has_key(pret, name@) {
                    if j < pret.len() {
                        assert(newt[j] == pret[j]);
                    } else {
                        assert(newt[j].value == vv(value));
                    }
                } else if attrs_of(pret, name@).read_only {
                    assert(newt[j] == pret[j]);
                } else {
                    if j == find_idx(pret, name@) {
                        assert(newt[j].value == vv(value));
                    } else {
                        assert(newt[j] == pret[j]);
                    }
                }
            }
            self.lemma_table_edit_wf(oldheap, h as int, vv(value));
        }
    }

    /// Unconditional write of an own slot, bypassing attribute checks: for
    /// wiring built-in members during construction, never reachable from
    /// script-level assignment.
    pub fn define_value(
        &mut self,
        mc: &Mutation,
        h: usize,
        name: &String,
        value: Value,
        attrs: Attributes,
    )
        requires
            old(self).wf(),
            old(self).live(h as int),
            (vv(value) is Obj) ==> old(self).live(vv(value)->Obj_0 as int),
        ensures
            final(self).wf(),
            final(self).cells@.len() == old(self).cells@.len(),
            forall|x: int| 0 <= x < old(self).cells@.len() && x != h ==> final(self).cells@[x]
                == old(self).cells@[x],
            final(self).live(h as int),
            final(self).proto_of(h as int) == old(self).proto_of(h as int),
            final(self).obj(h as int).kind == old(self).obj(h as int).kind,
            !has_key(old(self).table(h as int), name@) ==> final(self).table(h as int) == old(
                self,
            ).table(h as int).push((SlotV { name: name@, value: vv(value), attrs })),
            has_key(old(self).table(h as int), name@) ==> final(self).table(h as int) == old(
                self,
            ).table(h as int).update(
                find_idx(old(self).table(h as int), name@),
                (SlotV { name: name@, value: vv(value), attrs }),
            ),
    {
        let ghost oldheap = *self;
        let cell = &mut self.cells[h];
        match cell {
            Some(o) => {
                o.base.table.force_set(name, value, attrs);
            },
            None => {
                proof {
                    assert(false);
                }
            },
        }
        proof {
            let pret = oldheap.table(h as int);
            let newt = self.table(h as int);
            crate::property::lemma_find_idx(pret, name@);
            assert forall|j: int|
                0 <= j < newt.len() implies (#[trigger] newt[j]).value == vv(value) || (j
                < pret.len() && pret[j].value == newt[j].value) || (j + 1 < pret.len() && pret[j
                + 1].value == newt[j].value) by {
                if !has_key(pret, name@) {
                    if j < pret.len() {
                        assert(newt[j] == pret[j]);
                    } else {
                        assert(newt[j].value == vv(value));
                    }
                } else {
                    if j == find_idx(pret, name@) {
                        assert(newt[j].value == vv(value));
                    } else {
                        assert(newt[j] == pret[j]);
                    }
                }
            }
            self.lemma_table_edit_wf(oldheap, h as int, vv(value));
        }
    }

    /// Script-level delete of an own slot: fails on a missing name and on a
    /// slot flagged non-deletable, which is left untouched. The prototype
    /// chain is never consulted.
    pub fn delete(&mut self, mc: &Mutation, h: usize, name: &String) -> (r: bool)
        requires
            old(self).wf(),
            old(self).live(h as int),
        ensures
            final(self).wf(),
            final(self).cells@.len() == old(self).cells@.len(),
            forall|x: int| 0 <= x < old(self).cells@.len() && x != h ==> final(self).cells@[x]
                == old(self).cells@[x],
            final(self).live(h as int),
            final(self).proto_of(h as int) == old(self).proto_of(h as int),
            final(self).obj(h as int).kind == old(self).obj(h as int).kind,
            !has_key(old(self).table(h as int), name@) ==> r == false && final(self).table(
                h as int,
            ) == old(self).table(h as int),
            has_key(old(self).table(h as int), name@) && attrs_of(
                old(self).table(h as int),
                name@,
            ).non_deletable ==> r == false && final(self).table(h as int) == old(self).table(
                h as int,
            ),
            has_key(old(self).table(h as int), name@) && !attrs_of(
                old(self).table(h as int),
                name@,
            ).non_deletable ==> r == true && final(self).table(h as int) == old(self).table(
                h as int,
            ).remove(find_idx(old(self).table(h as int), name@)),
    {
        let ghost oldheap = *self;
        let cell = &mut self.cells[h];
        let r = match cell {
            Some(o) => o.base.table.delete_own(name),
            None => {
                proof {
                    assert(false);
                }
                false
            },
        };
        proof {
            let pret = oldheap.table(h as int);
            let newt = self.table(h as int);
            crate::property::lemma_find_idx(pret, name@);
            assert forall|j: int|
                0 <= j < newt.len() implies (#[trigger] newt[j]).value == VVal::Undefined || (j
                < pret.len() && pret[j].value == newt[j].value) || (j + 1 < pret.len() && pret[j
                + 1].value == newt[j].value) by {
                if has_key(pret, name@) && !attrs_of(pret, name@).non_deletable {
                    let idx = find_idx(pret, name@);
                    if j < idx {
                        assert(newt[j] == pret[j]);
                    } else {
                        assert(newt[j] == pret[j + 1]);
                    }
                } else {
                    assert(newt[j] == pret[j]);
                }
            }
            self.lemma_table_edit_wf(oldheap, h as int, VVal::Undefined);
        }
        r
    }

    /// The receiver's own enumerable names, in insertion order. The caller
    /// decides whether to also walk the prototype chain; by convention call
    /// sites do not, to avoid enumerating a cyclic chain forever.
    pub fn get_keys(&self, h: usize) -> (r: Vec<String>)
        requires
            self.wf(),
            self.live(h as int),
        ensures
            key_views(r@) == enum_keys(self.table(h as int)),
    {
        self.read(h).base.table.keys()
    }

    /// The value of the receiver's own slot, without chain traversal.
    pub fn get_own(&self, h: usize, name: &String) -> (r: Option<Value>)
        requires
            self.wf(),
            self.live(h as int),
        ensures
            match r {
                Some(v) => has_key(self.table(h as int), name@) && vv(v) == val_of(
                    self.table(h as int),
                    name@,
                ),
                None => !has_key(self.table(h as int), name@),
            },
    {
        match self.read(h).base.table.get_own(name) {
            Some(v) => Some(v.dup()),
            None => None,
        }
    }

    /// Allocates a bare script object with the given prototype.
    pub fn new_object(&mut self, mc: &Mutation, proto: Option<usize>) -> (h: usize)
        requires
            old(self).wf(),
            match proto {
                Some(p) => old(self).live(p as int),
                None => true,
            },
        ensures
            final(self).wf(),
            final(self).cells@.len() == old(self).cells@.len() + 1,
            h == old(self).cells@.len(),
            forall|x: int| 0 <= x < old(self).cells@.len() ==> final(self).cells@[x] == old(
                self,
            ).cells@[x],
            final(self).live(h as int),
            final(self).table(h as int) == Seq::<SlotV>::empty(),
            final(self).proto_of(h as int) == proto,
            final(self).obj(h as int).is_script(),
            old(self).retained_by(*final(self)),
    {
        let obj = HeapObj {
            base: ObjBase { table: PropertyTable::new(), proto },
            kind: NativeKind::Script,
        };
        self.allocate(mc, obj)
    }

    /// Allocates a callable object carrying the given payload, with the
    /// given prototype.
    pub fn new_function(
        &mut self,
        mc: &Mutation,
        payload: FunctionPayload,
        proto: Option<usize>,
    ) -> (h: usize)
        requires
            old(self).wf(),
            match proto {
                Some(p) => old(self).live(p as int),
                None => true,
            },
            match payload.scope_of() {
                Some(sc) => old(self).live(sc as int),
                None => true,
            },
        ensures
            final(self).wf(),
            final(self).cells@.len() == old(self).cells@.len() + 1,
            h == old(self).cells@.len(),
            forall|x: int| 0 <= x < old(self).cells@.len() ==> final(self).cells@[x] == old(
                self,
            ).cells@[x],
            final(self).live(h as int),
            final(self).table(h as int) == Seq::<SlotV>::empty(),
            final(self).proto_of(h as int) == proto,
            final(self).obj(h as int).is_function(),
            final(self).obj(h as int).spec_callable() == Some(payload),
            old(self).retained_by(*final(self)),
    {
        let obj = HeapObj {
            base: ObjBase { table: PropertyTable::new(), proto },
            kind: NativeKind::Function(payload),
        };
        self.allocate(mc, obj)
    }

    /// Allocates a persisted-storage handle with the given prototype.
    pub fn new_shared_store(&mut self, mc: &Mutation, proto: Option<usize>) -> (h: usize)
        requires
            old(self).wf(),
            match proto {
                Some(p) => old(self).live(p as int),
                None => true,
            },
        ensures
            final(self).wf(),
            final(self).cells@.len() == old(self).cells@.len() + 1,
            h == old(self).cells@.len(),
            forall|x: int| 0 <= x < old(self).cells@.len() ==> final(self).cells@[x] == old(
                self,
            ).cells@[x],
            final(self).live(h as int),
            final(self).table(h as int) == Seq::<SlotV>::empty(),
            final(self).proto_of(h as int) == proto,
            final(self).obj(h as int).is_shared_store(),
            old(self).retained_by(*final(self)),
    {
        let obj = HeapObj {
            base: ObjBase { table: PropertyTable::new(), proto },
            kind: NativeKind::SharedStore,
        };
        self.allocate(mc, obj)
    }

    /// Wires a built-in member: allocates a native callable under the given
    /// function prototype and force-sets it as a property of `h`. Returns
    /// the new callable's cell.
    pub fn force_set_function(
        &mut self,
        mc: &Mutation,
        h: usize,
        name: &String,
        native: NativeFunction,
        attrs: Attributes,
        fn_proto: Option<usize>,
    ) -> (fh: usize)
        requires
            old(self).wf(),
            old(self).live(h as int),
            match fn_proto {
                Some(p) => old(self).live(p as int),
                None => true,
            },
        ensures
            final(self).wf(),
            final(self).cells@.len() == old(self).cells@.len() + 1,
            fh == old(self).cells@.len(),
            forall|x: int| 0 <= x < old(self).cells@.len() && x != h ==> final(self).cells@[x]
                == old(self).cells@[x],
            final(self).live(h as int),
            final(self).live(fh as int),
            final(self).obj(fh as int).is_function(),
            final(self).obj(fh as int).spec_callable() == Some(
                FunctionPayload::Native(native),
            ),
            final(self).proto_of(fh as int) == fn_proto,
            final(self).proto_of(h as int) == old(self).proto_of(h as int),
            final(self).obj(h as int).kind == old(self).obj(h as int).kind,
            !has_key(old(self).table(h as int), name@) ==> final(self).table(h as int) == old(
                self,
            ).table(h as int).push(
                (SlotV { name: name@, value: VVal::Obj(fh), attrs }),
            ),
            has_key(old(self).table(h as int), name@) ==> final(self).table(h as int) == old(
                self,
            ).table(h as int).update(
                find_idx(old(self).table(h as int), name@),
                (SlotV { name: name@, value: VVal::Obj(fh), attrs }),
            ),
    {
        let fh = self.new_function(mc, FunctionPayload::Native(native), fn_proto);
        self.define_value(mc, h, name, Value::Object(fh), attrs);
        fh
    }

    /// A table edit at one cell whose slots, position by position, either
    /// keep a value the old table held there or take the newly written,
    /// live value, keeps the whole heap well-formed.
    proof fn lemma_table_edit_wf(&self, pre: Heap, h: int, written: VVal)
        requires
            pre.wf(),
            pre.live(h),
            self.cells@.len() == pre.cells@.len(),
            forall|x: int| 0 <= x < pre.cells@.len() && x != h ==> self.cells@[x]
                == pre.cells@[x],
            self.live(h),
            self.obj(h).base.proto == pre.obj(h).base.proto,
            self.obj(h).kind == pre.obj(h).kind,
            self.obj(h).base.table.wf(),
            (written is Obj) ==> pre.live(written->Obj_0 as int),
            forall|j: int|
                0 <= j < self.table(h).len() ==> (#[trigger] self.table(h)[j]).value == written
                    || (j < pre.table(h).len() && pre.table(h)[j].value == self.table(h)[j].value)
                    || (j + 1 < pre.table(h).len() && pre.table(h)[j + 1].value == self.table(
                    h,
                )[j].value),
        ensures
            self.wf(),
    {
        assert forall|x: int| self.live(x) implies self.obj_ok(self.obj(x)) by {
            assert(pre.live(x));
            assert(pre.obj_ok(pre.obj(x)));
            if x != h {
                assert(self.obj(x) == pre.obj(x));
            } else {
                assert forall|j: int|
                    0 <= j < self.obj(x).base.table@.len() implies match (#[trigger] self.obj(
                    x,
                ).base.table@[j].value) {
                    VVal::Obj(v) => self.live(v as int),
                    _ => true,
                } by {
                    let val = self.table(h)[j].value;
                    if val is Obj {
                        assert(pre.obj_ok(pre.obj(h)));
                        if val == written {
                        } else if j < pre.table(h).len() && pre.table(h)[j].value == val {
                            assert(pre.table(h)[j].value is Obj ==> pre.live(
                                pre.table(h)[j].value->Obj_0 as int,
                            ));
                        } else {
                            assert(pre.table(h)[j + 1].value is Obj ==> pre.live(
                                pre.table(h)[j + 1].value->Obj_0 as int,
                            ));
                        }
                    }
                }
            }
        }
    }
}

/// Law: an object with a prototype and no own slot of a name resolves that
/// name exactly as its prototype does.
pub proof fn lemma_prototype_delegation(heap: Heap, a: usize, b: usize, k: Seq<char>)
    requires
        heap.wf(),
        heap.live(a as int),
        heap.proto_of(a as int) == Some(b),
        !has_key(heap.table(a as int), k),
    ensures
        resolve(heap, a as int, k) == resolve(heap, b as int, k),
{
    lemma_int_range(0, heap.cells@.len() as int);
    assert(heap.live(b as int));
    if a == b {
    } else {
        assert(resolve(heap, a as int, k) == lookup_v(
            heap,
            b as int,
            k,
            Set::empty().insert(a as int),
        ));
        lemma_extra_visited(heap, b as int, k, Set::empty(), a, b);
    }
}

/// A cell that misses the sought name and hands over to a prototype that
/// the traversal has already seen (or is about to start from) can be added
/// to the visited set without changing resolution.
proof fn lemma_extra_visited(heap: Heap, h: int, k: Seq<char>, vis: Set<int>, a: usize, b: usize)
    requires
        heap.wf(),
        heap.live(a as int),
        heap.proto_of(a as int) == Some(b),
        !has_key(heap.table(a as int), k),
        a != b,
        heap.live(b as int),
        vis.finite(),
        vis.subset_of(heap_dom(heap)),
        !vis.contains(a as int),
        vis.contains(b as int) || h == b as int,
    ensures
        lookup_v(heap, h, k, vis.insert(a as int)) == lookup_v(heap, h, k, vis),
    decreases heap.cells@.len() - vis.len(),
{
    lemma_int_range(0, heap.cells@.len() as int);
    lemma_len_subset(vis, heap_dom(heap));
    assert(vis.insert(a as int).subset_of(heap_dom(heap)));
    lemma_len_subset(vis.insert(a as int), heap_dom(heap));
    if vis.contains(h) || !heap.live(h) {
    } else if h == a as int {
        assert(vis.contains(b as int));
        assert(lookup_v(heap, h, k, vis.insert(a as int)) == VVal::Undefined);
        assert(lookup_v(heap, h, k, vis) == lookup_v(heap, b as int, k, vis.insert(a as int)));
        assert(vis.insert(a as int).contains(b as int));
        assert(lookup_v(heap, b as int, k, vis.insert(a as int)) == VVal::Undefined);
    } else if has_key(heap.table(h), k) {
    } else {
        match heap.proto_of(h) {
            None => {},
            Some(p) => {
                assert(vis.insert(h).insert(a as int) =~= vis.insert(a as int).insert(h));
                lemma_len_subset(vis.insert(h), heap_dom(heap));
                lemma_extra_visited(heap, p as int, k, vis.insert(h), a, b);
            },
        }
    }
}

/// Under a well-formed heap, anything resolution returns that is an
/// object reference addresses a live cell.
pub proof fn lemma_lookup_live(heap: Heap, h: int, k: Seq<char>, vis: Set<int>)
    requires
        heap.wf(),
        vis.finite(),
        vis.subset_of(heap_dom(heap)),
    ensures
        (lookup_v(heap, h, k, vis) is Obj) ==> heap.live(
            lookup_v(heap, h, k, vis)->Obj_0 as int,
        ),
    decreases heap.cells@.len() - vis.len(),
{
    lemma_int_range(0, heap.cells@.len() as int);
    lemma_len_subset(vis, heap_dom(heap));
    if vis.contains(h) || !heap.live(h) {
    } else if has_key(heap.table(h), k) {
        crate::property::lemma_find_idx(heap.table(h), k);
        assert(heap.obj_ok(heap.obj(h)));
    } else {
        match heap.proto_of(h) {
            None => {},
            Some(p) => {
                lemma_len_subset(vis.insert(h), heap_dom(heap));
                lemma_lookup_live(heap, p as int, k, vis.insert(h));
            },
        }
    }
}

/// Law: an own enumerable slot shadows any prototype: resolution returns
/// the receiver's own value whatever the chain above holds.
pub proof fn lemma_own_shadows(heap: Heap, a: usize, k: Seq<char>)
    requires
        heap.wf(),
        heap.live(a as int),
        has_key(heap.table(a as int), k),
    ensures
        resolve(heap, a as int, k) == val_of(heap.table(a as int), k),
{
}

} // verus!
