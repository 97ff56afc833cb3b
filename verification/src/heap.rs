//! The garbage-collected heap of object cells.
//!
//! Every object lives in exactly one heap cell, addressed by index; object
//! references are cell indices, shared freely and possibly cyclic (an
//! object's prototype may transitively be the object itself). Reading a cell
//! needs nothing; writing needs a mutation permit, the capability value
//! threaded through every mutating call to witness that the write happens
//! inside a collection-safe window. Collection runs only at safe points
//! between operations, traces from a root set, and reclaims unreachable
//! cells.

use vstd::prelude::*;

use crate::bevel_filter::BevelFilterData;
use crate::function::FunctionPayload;
use crate::property::{PropertyTable, SlotV};
use crate::value::VVal;

verus! {

/// The mutation permit: proof that heap writes happen inside a
/// collection-safe window. It is an explicit value passed through call
/// signatures, not a global lock; the single-threaded runtime can always
/// obtain one synchronously between collections.
pub struct Mutation {
    _private: (),
}

impl Mutation {
    /// Opens a collection-safe window. The caller undertakes not to run a
    /// collection while the permit is in scope.
    pub fn permit() -> Mutation {
        Mutation { _private: () }
    }
}

/// The generic object every native kind embeds: a property table plus an
/// optional prototype reference.
#[derive(Debug)]
pub struct ObjBase {
    pub table: PropertyTable,
    pub proto: Option<usize>,
}

/// The kind tag of an object: the closed set of native specializations.
/// A callable kind carries its function payload, and the visual-filter kind
/// its typed parameter fields.
#[derive(Debug)]
pub enum NativeKind {
    /// A plain script object.
    Script,
    /// A callable object.
    Function(FunctionPayload),
    /// A persisted-storage handle.
    SharedStore,
    /// A visual-filter parameter bag.
    BevelFilter(BevelFilterData),
}

/// A heap cell's payload: the generic base every kind embeds, plus the
/// kind's typed extension.
#[derive(Debug)]
pub struct HeapObj {
    pub base: ObjBase,
    pub kind: NativeKind,
}

impl HeapObj {
    /// The function payload, on the callable kind.
    pub open spec fn spec_callable(self) -> Option<FunctionPayload> {
        match self.kind {
            NativeKind::Function(p) => Some(p),
            _ => None,
        }
    }

    /// The typed fields, on the visual-filter kind.
    pub open spec fn spec_bevel(self) -> Option<BevelFilterData> {
        match self.kind {
            NativeKind::BevelFilter(d) => Some(d),
            _ => None,
        }
    }

    pub open spec fn is_function(self) -> bool {
        self.kind is Function
    }

    pub open spec fn is_shared_store(self) -> bool {
        self.kind is SharedStore
    }

    pub open spec fn is_bevel_filter(self) -> bool {
        self.kind is BevelFilter
    }

    pub open spec fn is_script(self) -> bool {
        self.kind is Script
    }

    /// Every kind exposes its generic base.
    pub fn as_script_object(&self) -> (r: &ObjBase)
        ensures
            *r == self.base,
    {
        &self.base
    }

    /// Downcast to the callable facet: the function payload, or empty for
    /// every other kind.
    pub fn as_function(&self) -> (r: Option<&FunctionPayload>)
        ensures
            match r {
                Some(p) => self.is_function() && Some(*p) == self.spec_callable(),
                None => !self.is_function(),
            },
    {
        match &self.kind {
            NativeKind::Function(p) => Some(p),
            _ => None,
        }
    }

    /// Downcast to the persisted-storage facet: its base, or empty for
    /// every other kind.
    pub fn as_shared_store(&self) -> (r: Option<&ObjBase>)
        ensures
            match r {
                Some(b) => self.is_shared_store() && *b == self.base,
                None => !self.is_shared_store(),
            },
    {
        match &self.kind {
            NativeKind::SharedStore => Some(&self.base),
            _ => None,
        }
    }

    /// Downcast to the visual-filter facet: its typed fields, or empty for
    /// every other kind.
    pub fn as_bevel_filter(&self) -> (r: Option<&BevelFilterData>)
        ensures
            match r {
                Some(d) => self.is_bevel_filter() && Some(*d) == self.spec_bevel(),
                None => !self.is_bevel_filter(),
            },
    {
        match &self.kind {
            NativeKind::BevelFilter(d) => Some(d),
            _ => None,
        }
    }
}

/// Law: the downcast family is exclusive — a concrete object answers at
/// most one specialization query, and which one is fixed by its kind.
pub proof fn lemma_downcast_exclusive(o: HeapObj)
    ensures
        o.is_function() ==> !o.is_shared_store() && !o.is_bevel_filter() && !o.is_script(),
        o.is_shared_store() ==> !o.is_function() && !o.is_bevel_filter() && !o.is_script(),
        o.is_bevel_filter() ==> !o.is_function() && !o.is_shared_store() && !o.is_script(),
        o.is_script() || o.is_function() || o.is_shared_store() || o.is_bevel_filter(),
{
}

/// The heap: a vector of cells, each empty or holding one object.
#[derive(Debug)]
pub struct Heap {
    pub cells: Vec<Option<HeapObj>>,
}

impl Heap {
    /// A fresh heap with no cells.
    pub fn new() -> (r: Heap)
        ensures
            r.cells@ == Seq::<Option<HeapObj>>::empty(),
            r.wf(),
    {
        let r = Heap { cells: Vec::new() };
        proof {
            assert(r.cells@ =~= Seq::<Option<HeapObj>>::empty());
        }
        r
    }

    /// Whether `h` addresses a cell holding an object.
    pub open spec fn live(self, h: int) -> bool {
        0 <= h < self.cells@.len() && self.cells@[h] is Some
    }

    /// The object in a live cell.
    pub open spec fn obj(self, h: int) -> HeapObj {
        self.cells@[h]->0
    }

    /// The property table of a live cell's object.
    pub open spec fn table(self, h: int) -> Seq<SlotV> {
        self.obj(h).base.table@
    }

    /// The prototype reference of a live cell's object.
    pub open spec fn proto_of(self, h: int) -> Option<usize> {
        self.obj(h).base.proto
    }

    /// An object is coherent within a heap: its table's names are unique,
    /// and every reference it holds — prototype, object-valued slots, a
    /// scripted payload's captured scope — addresses a live cell.
    pub open spec fn obj_ok(self, o: HeapObj) -> bool {
        &&& o.base.table.wf()
        &&& match o.base.proto {
            Some(p) => self.live(p as int),
            None => true,
        }
        &&& forall|j: int|
            0 <= j < o.base.table@.len() ==> match #[trigger] o.base.table@[j].value {
                VVal::Obj(v) => self.live(v as int),
                _ => true,
            }
        &&& match o.spec_callable() {
            Some(p) => match p.scope_of() {
                Some(sc) => self.live(sc as int),
                None => true,
            },
            None => true,
        }
    }

    /// Heap well-formedness: every live cell's object is coherent.
    pub open spec fn wf(self) -> bool {
        forall|h: int| self.live(h) ==> self.obj_ok(#[trigger] self.obj(h))
    }

    /// Every cell live here is still live, with some object, there: no
    /// reference is invalidated by going from `self` to `other`.
    pub open spec fn retained_by(self, other: Heap) -> bool {
        &&& self.cells@.len() <= other.cells@.len()
        &&& forall|h: int| self.live(h) ==> other.live(h)
    }

    /// The number of cells.
    pub fn len(&self) -> (r: usize)
        ensures
            r == self.cells@.len(),
    {
        self.cells.len()
    }

    /// Allocates a fresh cell for an object whose references are live here.
    /// Returns a reference to the new cell; no existing cell moves or
    /// changes.
    pub fn allocate(&mut self, mc: &Mutation, obj: HeapObj) -> (h: usize)
        requires
            old(self).wf(),
            old(self).obj_ok(obj),
        ensures
            final(self).wf(),
            final(self).cells@ == old(self).cells@.push(Some(obj)),
            h == old(self).cells@.len(),
            final(self).live(h as int),
            final(self).obj(h as int) == obj,
            old(self).retained_by(*final(self)),
    {
        let h = self.cells.len();
        self.cells.push(Some(obj));
        proof {
            assert forall|x: int| final(self).live(x) implies final(self).obj_ok(
                final(self).obj(x),
            ) by {
                if x < h {
                    assert(old(self).obj_ok(old(self).obj(x)));
                    lemma_obj_ok_monotonic(*old(self), *final(self), old(self).obj(x));
                } else {
                    lemma_obj_ok_monotonic(*old(self), *final(self), obj);
                }
            }
        }
        h
    }

    /// Reads a live cell. Reads need no permit.
    pub fn read(&self, h: usize) -> (r: &HeapObj)
        requires
            self.live(h as int),
        ensures
            *r == self.obj(h as int),
    {
        match &self.cells[h] {
            Some(o) => o,
            None => unreached(),
        }
    }

    /// Replaces the object in a live cell. Writing requires the mutation
    /// permit; no other cell changes.
    pub fn write(&mut self, mc: &Mutation, h: usize, obj: HeapObj)
        requires
            old(self).wf(),
            old(self).live(h as int),
            old(self).obj_ok(obj),
        ensures
            final(self).wf(),
            final(self).cells@ == old(self).cells@.update(h as int, Some(obj)),
            final(self).live(h as int),
            final(self).obj(h as int) == obj,
            old(self).retained_by(*final(self)),
            forall|x: int| 0 <= x < old(self).cells@.len() && x != h ==> final(self).cells@[x]
                == old(self).cells@[x],
    {
        self.cells[h] = Some(obj);
        proof {
            assert(final(self).cells@ =~= old(self).cells@.update(h as int, Some(obj)));
            assert forall|x: int| final(self).live(x) implies final(self).obj_ok(
                final(self).obj(x),
            ) by {
                if x != h {
                    assert(old(self).obj_ok(old(self).obj(x)));
                    lemma_obj_ok_monotonic(*old(self), *final(self), old(self).obj(x));
                } else {
                    lemma_obj_ok_monotonic(*old(self), *final(self), obj);
                }
            }
        }
    }
}

/// The cells an object refers to directly: its prototype, its
/// object-valued slots, and a scripted payload's captured scope.
pub open spec fn succ_set(o: HeapObj) -> Set<int> {
    Set::new(
        |s: int|
            {
                ||| (match o.base.proto {
                    Some(p) => s == p as int,
                    None => false,
                })
                ||| (exists|j: int|
                    0 <= j < o.base.table@.len() && (#[trigger] o.base.table@[j].value) is Obj
                        && s == o.base.table@[j].value->Obj_0 as int)
                ||| (match o.spec_callable() {
                    Some(p) => match p.scope_of() {
                        Some(sc) => s == sc as int,
                        None => false,
                    },
                    None => false,
                })
            },
    )
}

/// How many entries of a mark vector are set.
pub open spec fn count_marked(s: Seq<bool>) -> int
    decreases s.len(),
{
    if s.len() == 0 {
        0
    } else {
        count_marked(s.drop_last()) + if s.last() {
            1int
        } else {
            0int
        }
    }
}

proof fn lemma_count_marked_update(s: Seq<bool>, i: int)
    requires
        0 <= i < s.len(),
        !s[i],
    ensures
        count_marked(s.update(i, true)) == count_marked(s) + 1,
    decreases s.len(),
{
    let t = s.update(i, true);
    if i == s.len() - 1 {
        assert(t.drop_last() =~= s.drop_last());
    } else {
        assert(t.drop_last() =~= s.drop_last().update(i, true));
        lemma_count_marked_update(s.drop_last(), i);
    }
}

/// Pushing keeps every present element present.
proof fn lemma_push_keeps(s: Seq<usize>, x: usize, v: usize)
    requires
        s.contains(v),
    ensures
        s.push(x).contains(v),
{
    let i = choose|i: int| 0 <= i < s.len() && s[i] == v;
    assert(s.push(x)[i] == v);
}

proof fn lemma_count_marked_bound(s: Seq<bool>)
    ensures
        0 <= count_marked(s) <= s.len(),
    decreases s.len(),
{
    if s.len() > 0 {
        lemma_count_marked_bound(s.drop_last());
    }
}

impl Heap {
    /// Collects the enumerable successors of a live cell's object.
    fn successors(&self, h: usize) -> (r: Vec<usize>)
        requires
            self.wf(),
            self.live(h as int),
        ensures
            forall|s: int| succ_set(self.obj(h as int)).contains(s) ==> r@.contains(s as usize),
            forall|j: int| 0 <= j < r@.len() ==> self.live(#[trigger] r@[j] as int),
    {
        let obj = self.read(h);
        let mut out: Vec<usize> = Vec::new();
        proof {
            assert(self.obj_ok(self.obj(h as int)));
        }
        match obj.base.proto {
            Some(p) => {
                out.push(p);
            },
            None => {},
        }
        let ghost after_proto = out@;
        let n = obj.base.table.slots.len();
        let mut i: usize = 0;
        while i < n
            invariant
                self.wf(),
                self.live(h as int),
                obj == self.obj(h as int),
                n == obj.base.table@.len(),
                i <= n,
                forall|j: int| 0 <= j < out@.len() ==> self.live(#[trigger] out@[j] as int),
                forall|j: int| 0 <= j < after_proto.len() ==> out@[j] == after_proto[j],
                after_proto.len() <= out@.len(),
                forall|j: int|
                    0 <= j < i ==> match (#[trigger] obj.base.table@[j].value) {
                        VVal::Obj(v) => out@.contains(v),
                        _ => true,
                    },
            decreases n - i,
        {
            let ghost pre_out = out@;
            proof {
                assert(self.obj_ok(self.obj(h as int)));
            }
            match &obj.base.table.slots[i].value {
                crate::value::Value::Object(o) => {
                    proof {
                        assert(obj.base.table@[i as int].value == VVal::Obj(*o));
                    }
                    out.push(*o);
                    proof {
                        assert(out@[out@.len() - 1] == *o);
                        assert forall|j: int|
                            0 <= j < i + 1 implies match (#[trigger] obj.base.table@[j].value) {
                            VVal::Obj(v) => out@.contains(v),
                            _ => true,
                        } by {
                            if j < i {
                                match obj.base.table@[j].value {
                                    VVal::Obj(v) => {
                                        let idx = choose|idx: int|
                                            0 <= idx < pre_out.len() && pre_out[idx] == v;
                                        assert(out@[idx] == v);
                                    },
                                    _ => {},
                                }
                            }
                        }
                    }
                },
                _ => {},
            }
            i += 1;
        }
        let ghost before_scope = out@;
        match obj.as_function() {
            Some(p) => match p {
                FunctionPayload::Scripted(sf) => match sf.scope {
                    Some(sc) => {
                        out.push(sc);
                        proof {
                            assert(self.obj_ok(self.obj(h as int)));
                            assert(out@[out@.len() - 1] == sc);
                        }
                    },
                    None => {},
                },
                FunctionPayload::Native(_) => {},
            },
            None => {},
        }
        proof {
            assert forall|s: int|
                succ_set(self.obj(h as int)).contains(s) implies out@.contains(s as usize) by {
                let o = self.obj(h as int);
                if (match o.base.proto {
                    Some(p) => s == p as int,
                    None => false,
                }) {
                    assert(after_proto[0] == o.base.proto->0);
                    assert(before_scope[0] == o.base.proto->0);
                    if out@.len() > before_scope.len() {
                        assert(out@[0] == before_scope[0]);
                    }
                } else if (exists|j: int|
                    0 <= j < o.base.table@.len() && (#[trigger] o.base.table@[j].value)
                        == VVal::Obj(s as usize) && s >= 0) {
                    let j = choose|j: int|
                        0 <= j < o.base.table@.len() && (#[trigger] o.base.table@[j].value)
                            == VVal::Obj(s as usize) && s >= 0;
                    assert(before_scope.contains(s as usize));
                    if out@.len() > before_scope.len() {
                        lemma_push_keeps(before_scope, out@[out@.len() - 1], s as usize);
                    }
                } else {
                    assert(out@[out@.len() - 1] == s as usize);
                }
            }
        }
        out
    }

    /// Collection at a safe point: traces from the given roots and
    /// reclaims every cell the trace does not keep. The returned (ghost)
    /// kept set contains the roots and is closed under object references,
    /// so nothing reachable from a root is reclaimed; kept cells keep their
    /// payloads, and every other cell becomes vacant. No cell moves, so
    /// every retained reference stays valid.
    pub fn collect(&mut self, roots: &Vec<usize>) -> (kept: Ghost<Set<int>>)
        requires
            old(self).wf(),
            forall|j: int| 0 <= j < roots@.len() ==> old(self).live(#[trigger] roots@[j] as int),
        ensures
            final(self).wf(),
            final(self).cells@.len() == old(self).cells@.len(),
            forall|j: int| 0 <= j < roots@.len() ==> kept@.contains(#[trigger] roots@[j] as int),
            forall|h: int| kept@.contains(h) ==> old(self).live(h) && final(self).cells@[h] == old(
                self,
            ).cells@[h],
            forall|h: int|
                kept@.contains(h) ==> succ_set(old(self).obj(h)).subset_of(kept@),
            forall|h: int|
                0 <= h < old(self).cells@.len() && !kept@.contains(h) ==> final(self).cells@[h]
                    is None,
    {
        let n = self.cells.len();
        let mut marked: Vec<bool> = Vec::new();
        let mut i: usize = 0;
        while i < n
            invariant
                i <= n,
                marked@.len() == i,
                forall|j: int| 0 <= j < i ==> !marked@[j],
            decreases n - i,
        {
            marked.push(false);
            i += 1;
        }
        let mut r: usize = 0;
        while r < roots.len()
            invariant
                self.wf(),
                n == self.cells@.len(),
                marked@.len() == n,
                r <= roots@.len(),
                forall|j: int| 0 <= j < roots@.len() ==> self.live(#[trigger] roots@[j] as int),
                forall|j: int| 0 <= j < r ==> marked@[#[trigger] roots@[j] as int],
                forall|h: int| 0 <= h < n && marked@[h] ==> self.live(h),
            decreases roots@.len() - r,
        {
            let rt = roots[r];
            marked[rt] = true;
            r += 1;
        }
        // mark phase: propagate until no marked cell has an unmarked
        // successor.
        loop
            invariant
                self.wf(),
                n == self.cells@.len(),
                marked@.len() == n,
                forall|j: int| 0 <= j < roots@.len() ==> marked@[#[trigger] roots@[j] as int],
                forall|j: int| 0 <= j < roots@.len() ==> self.live(#[trigger] roots@[j] as int),
                forall|h: int| 0 <= h < n && marked@[h] ==> self.live(h),
            ensures
                marked@.len() == n,
                forall|j: int| 0 <= j < roots@.len() ==> marked@[#[trigger] roots@[j] as int],
                forall|h: int| 0 <= h < n && marked@[h] ==> self.live(h),
                forall|y: int|
                    0 <= y < n && marked@[y] ==> forall|s2: int|
                        succ_set(#[trigger] self.obj(y)).contains(s2) ==> 0 <= s2 < n
                            && marked@[s2],
            decreases n - count_marked(marked@),
        {
            proof {
                lemma_count_marked_bound(marked@);
            }
            let ghost pass_start = marked@;
            let mut changed = false;
            let mut x: usize = 0;
            while x < n
                invariant
                    self.wf(),
                    n == self.cells@.len(),
                    marked@.len() == n,
                    x <= n,
                    forall|j: int| 0 <= j < roots@.len() ==> marked@[#[trigger] roots@[j] as int],
                    forall|j: int| 0 <= j < roots@.len() ==> self.live(
                        #[trigger] roots@[j] as int,
                    ),
                    forall|h: int| 0 <= h < n && marked@[h] ==> self.live(h),
                    forall|h: int| 0 <= h < n && pass_start[h] ==> marked@[h],
                    !changed ==> marked@ == pass_start,
                    changed ==> count_marked(marked@) > count_marked(pass_start),
                    !changed ==> forall|y: int|
                        0 <= y < x && marked@[y] ==> succ_set(#[trigger] self.obj(y)).subset_of(
                            Set::new(|z: int| 0 <= z < n && marked@[z]),
                        ),
                decreases n - x,
            {
                if marked[x] {
                    let succs = self.successors(x);
                    let mut k: usize = 0;
                    while k < succs.len()
                        invariant
                            self.wf(),
                            n == self.cells@.len(),
                            marked@.len() == n,
                            x < n,
                            self.live(x as int),
                            marked@[x as int],
                            k <= succs@.len(),
                            forall|j: int| 0 <= j < roots@.len() ==> marked@[
                                #[trigger] roots@[j] as int
                            ],
                            forall|j: int| 0 <= j < roots@.len() ==> self.live(
                                #[trigger] roots@[j] as int,
                            ),
                            forall|h: int| 0 <= h < n && marked@[h] ==> self.live(h),
                            forall|h: int| 0 <= h < n && pass_start[h] ==> marked@[h],
                            forall|j: int| 0 <= j < succs@.len() ==> self.live(
                                #[trigger] succs@[j] as int,
                            ),
                            forall|s2: int|
                                succ_set(self.obj(x as int)).contains(s2) ==> succs@.contains(
                                    s2 as usize,
                                ),
                            forall|j: int| 0 <= j < k ==> marked@[#[trigger] succs@[j] as int],
                            !changed ==> marked@ == pass_start,
                            changed ==> count_marked(marked@) > count_marked(pass_start),
                            !changed ==> forall|y: int|
                                0 <= y < x && marked@[y] ==> succ_set(
                                    #[trigger] self.obj(y),
                                ).subset_of(Set::new(|z: int| 0 <= z < n && marked@[z])),
                        decreases succs@.len() - k,
                    {
                        let sc = succs[k];
                        if !marked[sc] {
                            let ghost pre = marked@;
                            marked[sc] = true;
                            proof {
                                lemma_count_marked_update(pre, sc as int);
                                lemma_count_marked_bound(pass_start);
                                if pre == pass_start {
                                } else {
                                    assert(count_marked(pre) > count_marked(pass_start));
                                }
                            }
                            changed = true;
                        }
                        k += 1;
                    }
                    proof {
                        assert forall|s2: int|
                            succ_set(self.obj(x as int)).contains(s2) implies 0 <= s2 < n
                            && marked@[s2] by {
                            assert(s2 >= 0);
                            assert(s2 <= usize::MAX as int);
                            assert(succs@.contains(s2 as usize));
                            let j = choose|j: int|
                                0 <= j < succs@.len() && succs@[j] == s2 as usize;
                            assert(self.live(succs@[j] as int));
                            assert(marked@[succs@[j] as int]);
                            assert(succs@[j] as int == s2);
                        }
                        assert(marked@[x as int]);
                    }
                }
                x += 1;
                proof {
                    if !changed {
                        assert forall|y: int|
                            0 <= y < x && marked@[y] implies succ_set(
                            #[trigger] self.obj(y),
                        ).subset_of(Set::new(|z: int| 0 <= z < n && marked@[z])) by {
                            assert forall|s2: int|
                                succ_set(self.obj(y)).contains(s2) implies Set::new(
                                |z: int| 0 <= z < n && marked@[z],
                            ).contains(s2) by {
                                assert(0 <= s2 < n && marked@[s2]);
                            }
                        }
                    }
                }
            }
            if !changed {
                proof {
                    assert forall|y: int|
                        0 <= y < n && marked@[y] implies forall|s2: int|
                        succ_set(#[trigger] self.obj(y)).contains(s2) ==> 0 <= s2 < n
                            && marked@[s2] by {
                        assert(succ_set(self.obj(y)).subset_of(
                            Set::new(|z: int| 0 <= z < n && marked@[z]),
                        ));
                        assert forall|s2: int|
                            succ_set(self.obj(y)).contains(s2) implies 0 <= s2 < n && marked@[s2]
                            by {
                            assert(Set::new(|z: int| 0 <= z < n && marked@[z]).contains(s2));
                        }
                    }
                }
                break ;
            }
            proof {
                lemma_count_marked_bound(marked@);
                assert(count_marked(marked@) > count_marked(pass_start));
            }
        }
        // sweep phase: unmarked cells are reclaimed in place.
        let ghost final_marked = marked@;
        let ghost pre_sweep = *self;
        let mut h: usize = 0;
        while h < n
            invariant
                n == self.cells@.len(),
                marked@ == final_marked,
                final_marked.len() == n,
                h <= n,
                forall|x: int| h <= x < n ==> self.cells@[x] == pre_sweep.cells@[x],
                forall|x: int| 0 <= x < h && final_marked[x] ==> self.cells@[x]
                    == pre_sweep.cells@[x],
                forall|x: int| 0 <= x < h && !final_marked[x] ==> self.cells@[x] is None,
            decreases n - h,
        {
            if !marked[h] {
                self.cells[h] = None;
            }
            h += 1;
        }
        let ghost kept = Set::new(|x: int| 0 <= x < n && final_marked[x]);
        proof {
            assert forall|h2: int|
                kept.contains(h2) implies succ_set(old(self).obj(h2)).subset_of(kept) by {
                assert(final_marked[h2]);
                assert forall|s2: int|
                    succ_set(old(self).obj(h2)).contains(s2) implies kept.contains(s2) by {
                    assert(0 <= s2 < n && final_marked[s2]);
                }
            }
            assert forall|x: int| final(self).live(x) implies final(self).obj_ok(
                final(self).obj(x),
            ) by {
                assert(final_marked[x]);
                assert(pre_sweep.obj_ok(pre_sweep.obj(x)));
                assert(final(self).obj(x) == pre_sweep.obj(x));
                assert forall|s: int|
                    succ_set(final(self).obj(x)).contains(s) implies final(self).live(s) by {
                    assert(final_marked[s]);
                }
                let o = final(self).obj(x);
                match o.base.proto {
                    Some(p) => {
                        assert(succ_set(o).contains(p as int));
                    },
                    None => {},
                }
                assert forall|j: int|
                    0 <= j < o.base.table@.len() implies match (#[trigger] o.base.table@[
                    j
                ].value) {
                    VVal::Obj(v) => final(self).live(v as int),
                    _ => true,
                } by {
                    match o.base.table@[j].value {
                        VVal::Obj(v) => {
                            assert(succ_set(o).contains(v as int));
                        },
                        _ => {},
                    }
                }
                match o.spec_callable() {
                    Some(p) => match p.scope_of() {
                        Some(sc) => {
                            assert(succ_set(o).contains(sc as int));
                        },
                        None => {},
                    },
                    None => {},
                }
            }
        }
        Ghost(kept)
    }
}

/// An object coherent in a heap stays coherent in any heap that retains it.
proof fn lemma_obj_ok_monotonic(a: Heap, b: Heap, o: HeapObj)
    requires
        a.obj_ok(o),
        a.retained_by(b),
    ensures
        b.obj_ok(o),
{
}

} // verus!
