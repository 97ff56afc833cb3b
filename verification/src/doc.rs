//! The textual persistence layer: serializing an object's enumerable data
//! into a structured text document and reconstructing objects from it.
//!
//! The document model is a tree over null, booleans, numbers, strings and
//! nested key/value objects; arrays and callables are omitted on write and
//! never appear on read back. The text itself is produced and parsed by an
//! outside encoder, used purely as an opaque round-trip mechanism: this
//! module states what the encoder's values model and proves the walks on
//! either side against that.

use vstd::prelude::*;

use crate::Attributes;
use crate::heap::{Heap, Mutation};
use crate::object::ProtoRegistry;
use crate::property::SlotV;
use crate::value::{Value, VmError, VVal};
use crate::wstr::WString;

verus! {

/// A structured document: the mathematical model of one persisted value.
pub enum Doc {
    Null,
    Bool(bool),
    Num(i64),
    /// A string as its UTF-16 code units.
    Str(Seq<u16>),
    /// Key/value pairs, in order.
    Obj(Seq<(Seq<char>, Doc)>),
    /// An encoder value outside this model (an array, a non-integral
    /// number): never produced by this module's walks.
    Other,
}

/// Document well-formedness: keys unique at every level, every node one of
/// the modeled kinds.
pub open spec fn wf_doc(d: Doc) -> bool
    decreases d,
{
    match d {
        Doc::Obj(es) => (forall|i: int, j: int|
            0 <= i < j < es.len() ==> es[i].0 != es[j].0) && (forall|i: int|
            0 <= i < es.len() ==> wf_doc(#[trigger] es[i].1)),
        Doc::Other => false,
        _ => true,
    }
}

/// Nesting depth of a document: leaves are 0, an object is one more than
/// its deepest entry.
pub open spec fn doc_depth(d: Doc) -> nat
    decreases d,
{
    match d {
        Doc::Obj(es) => 1 + entries_depth(es),
        _ => 0,
    }
}

/// The deepest entry value of a key/value sequence.
pub open spec fn entries_depth(es: Seq<(Seq<char>, Doc)>) -> nat
    decreases es,
{
    if es.len() == 0 {
        0
    } else {
        let hd = doc_depth(es[0].1);
        let tl = entries_depth(es.drop_first());
        if hd > tl {
            hd
        } else {
            tl
        }
    }
}

/// The UTF-16 code units a character sequence encodes to. Relied on as the
/// meaning of `str::encode_utf16`: a function of the characters alone.
pub uninterp spec fn units_of(s: Seq<char>) -> Seq<u16>;

/// The document an encoder value models.
pub uninterp spec fn jv_doc(v: json::JsonValue) -> Doc;

/// The canonical text of a well-formed document.
pub uninterp spec fn doc_text_of(d: Doc) -> Seq<char>;

#[verifier::external_type_specification]
#[verifier::external_body]
pub struct ExJsonValue(json::JsonValue);

/// Relies on `String::from_utf16`: it decodes exactly the unit sequences
/// that UTF-16 encoding produces, and gives back the characters whose
/// encoding is the input.
#[verifier::external_body]
fn utf16_to_string(v: &Vec<u16>) -> (r: Option<String>)
    ensures
        match r {
            Some(s) => units_of(s@) == v@,
            None => forall|cs: Seq<char>| units_of(cs) != v@,
        },
{
    String::from_utf16(v.as_slice()).ok()
}

/// Relies on `str::encode_utf16`: the UTF-16 code units of a string.
#[verifier::external_body]
fn string_units(s: &str) -> (r: Vec<u16>)
    ensures
        r@ == units_of(s@),
{
    s.encode_utf16().collect()
}

/// Relies on `json::JsonValue::Null`: the null encoder value models the
/// null document.
#[verifier::external_body]
fn jv_null() -> (r: json::JsonValue)
    ensures
        jv_doc(r) == Doc::Null,
{
    json::JsonValue::Null
}

/// Relies on `json::JsonValue::Boolean`: a boolean encoder value models
/// its boolean document.
#[verifier::external_body]
fn jv_bool(b: bool) -> (r: json::JsonValue)
    ensures
        jv_doc(r) == Doc::Bool(b),
{
    json::JsonValue::Boolean(b)
}

/// Relies on `json::number::Number`'s exact conversion from `i64` (via
/// `From<i64> for JsonValue`): an integral number value models its number
/// document. The conversion negates a negative input before widening, so
/// the minimum value — whose negation overflows — is excluded.
#[verifier::external_body]
fn jv_num(n: i64) -> (r: json::JsonValue)
    requires
        n != i64::MIN,
    ensures
        jv_doc(r) == Doc::Num(n),
{
    json::JsonValue::from(n)
}

/// Relies on `json::JsonValue::String`: a string encoder value models the
/// document of its characters' code units.
#[verifier::external_body]
fn jv_str(s: &str) -> (r: json::JsonValue)
    ensures
        jv_doc(r) == Doc::Str(units_of(s@)),
{
    json::JsonValue::String(s.to_string())
}

/// Relies on `json::JsonValue::new_object`: a fresh object value models
/// the empty document object.
#[verifier::external_body]
fn jv_new_object() -> (r: json::JsonValue)
    ensures
        jv_doc(r) == Doc::Obj(Seq::empty()),
{
    json::JsonValue::new_object()
}

/// Inserting under a fresh key appends the pair; inserting under a present
/// key replaces that value in place.
pub open spec fn doc_upsert(es: Seq<(Seq<char>, Doc)>, k: Seq<char>, d: Doc) -> Seq<
    (Seq<char>, Doc),
>
    decreases es.len(),
{
    if es.len() == 0 {
        seq![(k, d)]
    } else if es[0].0 == k {
        seq![(k, d)] + es.drop_first()
    } else {
        seq![es[0]] + doc_upsert(es.drop_first(), k, d)
    }
}

/// Relies on `json::JsonValue::insert` (via `json::object::Object::insert`):
/// on an object value it appends a new key at the end, or replaces the
/// value of an existing key in place, keeping insertion order.
#[verifier::external_body]
fn jv_insert(o: &mut json::JsonValue, k: &str, v: json::JsonValue)
    requires
        jv_doc(*old(o)) is Obj,
    ensures
        jv_doc(*final(o)) == Doc::Obj(doc_upsert(jv_doc(*old(o))->Obj_0, k@, jv_doc(v))),
{
    let _ = o.insert(k, v);
}

/// Relies on `json::JsonValue::dump`: the compact text of a value, which
/// for values modeling well-formed documents is the document's canonical
/// text.
#[verifier::external_body]
fn jv_dump(v: &json::JsonValue) -> (r: String)
    requires
        wf_doc(jv_doc(*v)),
    ensures
        r@ == doc_text_of(jv_doc(*v)),
{
    v.dump()
}

/// Every string of the document has a character spelling: its units are
/// some character sequence's UTF-16 encoding.
pub open spec fn doc_encodable(d: Doc) -> bool
    decreases d,
{
    match d {
        Doc::Str(u) => exists|cs: Seq<char>| units_of(cs) == u,
        Doc::Obj(es) => forall|i: int| 0 <= i < es.len() ==> doc_encodable(#[trigger] es[i].1),
        _ => true,
    }
}

/// Relies on `json::parse`: parsing the canonical text of a well-formed
/// document yields a value modeling that document (the encoder round-trips
/// its own output). Qualified twice: the decoder refuses nesting past a
/// hard limit, so only documents conservatively below it are promised, and
/// a string no characters encode to has no modeling value at all.
#[verifier::external_body]
pub(crate) fn jv_parse_text(s: &str) -> (r: Option<json::JsonValue>)
    ensures
        forall|d: Doc|
            wf_doc(d) && doc_encodable(d) && doc_depth(d) <= 500 && s@ == doc_text_of(d)
                ==> r is Some && jv_doc(r->0) == d,
{
    json::parse(s).ok()
}

/// What a reader can see of one encoder value.
pub enum JvKind {
    Null,
    Bool(bool),
    Num,
    Str(String),
    Obj,
    Other,
}

/// Relies on `json::JsonValue`'s accessors (`is_null`, `as_bool`,
/// `as_str`, `is_number`, `is_object`): each succeeds exactly on its
/// variant, so the answers tell the modeled document's kind apart. A value
/// none of them accepts (an array) models no document of ours. A number
/// models its integer or, held non-canonically, no document; which of the
/// two is read separately, from its parts.
#[verifier::external_body]
fn jv_read(v: &json::JsonValue) -> (r: JvKind)
    ensures
        match r {
            JvKind::Null => jv_doc(*v) == Doc::Null,
            JvKind::Bool(b) => jv_doc(*v) == Doc::Bool(b),
            JvKind::Num => jv_doc(*v) is Num || jv_doc(*v) == Doc::Other,
            JvKind::Str(s) => jv_doc(*v) == Doc::Str(units_of(s@)),
            JvKind::Obj => jv_doc(*v) is Obj,
            JvKind::Other => jv_doc(*v) == Doc::Other,
        },
{
    if v.is_null() {
        JvKind::Null
    } else if let Some(b) = v.as_bool() {
        JvKind::Bool(b)
    } else if let Some(s) = v.as_str() {
        JvKind::Str(s.to_string())
    } else if v.is_number() {
        JvKind::Num
    } else if v.is_object() {
        JvKind::Obj
    } else {
        JvKind::Other
    }
}

/// The sign, mantissa and exponent that canonically carry an integer: the
/// exact fields the encoder's `i64` conversion writes.
pub open spec fn canonical_parts(n: i64) -> (bool, u64, i16) {
    (n >= 0, if n >= 0 {
        n as u64
    } else {
        (-(n as int)) as u64
    }, 0i16)
}

/// Whether sign/mantissa/exponent carry some integer canonically.
pub open spec fn parts_canonical(p: (bool, u64, i16)) -> bool {
    p.2 == 0 && (if p.0 {
        p.1 <= i64::MAX as u64
    } else {
        1 <= p.1 <= 0x8000000000000000u64
    })
}

/// The integer canonical parts carry.
pub open spec fn parts_value(p: (bool, u64, i16)) -> i64 {
    if p.0 {
        p.1 as i64
    } else {
        (-(p.1 as int)) as i64
    }
}

/// Relies on `json::number::Number::as_parts` (via `as_number`): the raw
/// sign, mantissa and exponent of a number value, converted nowhere, so no
/// range can overflow. A number models an integer exactly when its parts
/// are that integer's canonical form; a NaN or decimal value has
/// non-canonical parts and models no document.
#[verifier::external_body]
fn jv_number_parts(v: &json::JsonValue) -> (r: Option<(bool, u64, i16)>)
    ensures
        match r {
            Some(parts) => (forall|n: i64| jv_doc(*v) == Doc::Num(n) ==> parts
                == canonical_parts(n)) && (parts_canonical(parts) ==> jv_doc(*v) == Doc::Num(
                parts_value(parts),
            )),
            None => !(jv_doc(*v) is Num),
        },
{
    v.as_number().map(|n| n.as_parts())
}

/// Relies on `json::JsonValue::entries`: the key/value pairs of an object
/// value, in insertion order (empty for any other kind).
#[verifier::external_body]
fn jv_entries(v: &json::JsonValue) -> (r: Vec<(String, json::JsonValue)>)
    ensures
        forall|es: Seq<(Seq<char>, Doc)>|
            jv_doc(*v) == Doc::Obj(es) ==> r@.len() == es.len() && forall|i: int|
                0 <= i < es.len() ==> (#[trigger] r@[i]).0@ == es[i].0 && jv_doc(r@[i].1)
                    == es[i].1,
{
    v.entries().map(|(k, x)| (k.to_string(), x.clone())).collect()
}

/// Whether a cell holds a callable object.
pub open spec fn callable_at(heap: Heap, o: int) -> bool {
    heap.live(o) && heap.obj(o).spec_callable() is Some
}

/// The document entries a slot sequence serializes to: enumerable slots in
/// order, skipping `Undefined` values, callable objects, and — once the
/// nesting allowance is spent — nested objects.
pub open spec fn doc_entries(heap: Heap, slots: Seq<SlotV>, fuel: nat) -> Seq<(Seq<char>, Doc)>
    decreases fuel, slots.len(), 0nat,
{
    if slots.len() == 0 {
        Seq::empty()
    } else {
        let rest = doc_entries(heap, slots.drop_last(), fuel);
        let s = slots.last();
        if !s.attrs.enumerable {
            rest
        } else {
            match s.value {
                VVal::Undefined => rest,
                VVal::Null => rest.push((s.name, Doc::Null)),
                VVal::Bool(b) => rest.push((s.name, Doc::Bool(b))),
                VVal::Num(n) => rest.push((s.name, Doc::Num(n))),
                VVal::Str(u) => rest.push((s.name, Doc::Str(u))),
                VVal::Obj(o) => if callable_at(heap, o as int) {
                    rest
                } else if fuel == 0 {
                    rest
                } else {
                    rest.push((s.name, doc_of(heap, o as int, (fuel - 1) as nat)))
                },
            }
        }
    }
}

/// The document an object serializes to.
pub open spec fn doc_of(heap: Heap, h: int, fuel: nat) -> Doc
    decreases fuel, heap.table(h).len(), 1nat,
{
    Doc::Obj(doc_entries(heap, heap.table(h), fuel))
}

/// When serialization succeeds: every enumerable string value is
/// UTF-16-representable and every enumerable non-callable object value fits
/// the nesting allowance, recursively.
pub open spec fn serial_ok(heap: Heap, h: int, fuel: nat) -> bool
    decreases fuel,
{
    forall|j: int|
        0 <= j < heap.table(h).len() ==> {
            let s = #[trigger] heap.table(h)[j];
            !s.attrs.enumerable || match s.value {
                VVal::Str(u) => exists|cs: Seq<char>| units_of(cs) == u,
                VVal::Num(n) => n != i64::MIN,
                VVal::Obj(o) => callable_at(heap, o as int) || (fuel > 0 && serial_ok(
                    heap,
                    o as int,
                    (fuel - 1) as nat,
                )),
                _ => true,
            }
        }
}

/// Every key of the serialized entries names some slot.
proof fn lemma_doc_entries_keys(heap: Heap, slots: Seq<SlotV>, fuel: nat)
    ensures
        forall|i: int|
            0 <= i < doc_entries(heap, slots, fuel).len() ==> exists|j: int|
                0 <= j < slots.len() && slots[j].name == (#[trigger] doc_entries(
                    heap,
                    slots,
                    fuel,
                )[i]).0,
    decreases slots.len(),
{
    if slots.len() > 0 {
        lemma_doc_entries_keys(heap, slots.drop_last(), fuel);
        assert forall|i: int|
            0 <= i < doc_entries(heap, slots, fuel).len() implies exists|j: int|
            0 <= j < slots.len() && slots[j].name == (#[trigger] doc_entries(
            heap,
            slots,
            fuel,
        )[i]).0 by {
            let es = doc_entries(heap, slots, fuel);
            let rest = doc_entries(heap, slots.drop_last(), fuel);
            if i < rest.len() {
                let j = choose|j: int|
                    0 <= j < slots.drop_last().len() && slots.drop_last()[j].name == rest[i].0;
                assert(slots[j].name == es[i].0);
            } else {
                assert(slots[slots.len() - 1].name == es[i].0);
            }
        }
    }
}

/// A heap's serialized documents are well-formed: keys unique (the table's
/// own uniqueness), entries well-formed all the way down.
pub proof fn lemma_doc_of_wf(heap: Heap, h: int, fuel: nat)
    requires
        heap.wf(),
        heap.live(h),
    ensures
        wf_doc(doc_of(heap, h, fuel)),
    decreases fuel, heap.table(h).len(), 1nat,
{
    assert(heap.obj_ok(heap.obj(h)));
    lemma_doc_entries_wf(heap, h, heap.table(h), fuel);
    let es = doc_entries(heap, heap.table(h), fuel);
    assert forall|i: int, j: int| 0 <= i < j < es.len() implies es[i].0 != es[j].0 by {
        assert((#[trigger] doc_entries(heap, heap.table(h), fuel)[i]).0 != (
        #[trigger] doc_entries(heap, heap.table(h), fuel)[j]).0);
    }
    assert forall|i: int| 0 <= i < es.len() implies wf_doc(#[trigger] es[i].1) by {
        assert(wf_doc((#[trigger] doc_entries(heap, heap.table(h), fuel)[i]).1));
    }
    assert(wf_doc(Doc::Obj(es)));
}

proof fn lemma_doc_entries_wf(heap: Heap, h: int, slots: Seq<SlotV>, fuel: nat)
    requires
        heap.wf(),
        heap.live(h),
        crate::property::keys_unique(slots),
        forall|j: int|
            0 <= j < slots.len() ==> match (#[trigger] slots[j]).value {
                VVal::Obj(v) => heap.live(v as int),
                _ => true,
            },
    ensures
        forall|i: int, j: int|
            0 <= i < j < doc_entries(heap, slots, fuel).len() ==> (#[trigger] doc_entries(
                heap,
                slots,
                fuel,
            )[i]).0 != (#[trigger] doc_entries(heap, slots, fuel)[j]).0,
        forall|i: int|
            0 <= i < doc_entries(heap, slots, fuel).len() ==> wf_doc(
                (#[trigger] doc_entries(heap, slots, fuel)[i]).1,
            ),
    decreases fuel, slots.len(), 0nat,
{
    if slots.len() > 0 {
        lemma_doc_entries_wf(heap, h, slots.drop_last(), fuel);
        lemma_doc_entries_keys(heap, slots.drop_last(), fuel);
        let es = doc_entries(heap, slots, fuel);
        let rest = doc_entries(heap, slots.drop_last(), fuel);
        let s = slots.last();
        if es.len() > rest.len() {
            assert forall|i: int| 0 <= i < rest.len() implies rest[i].0 != s.name by {
                let j = choose|j: int|
                    0 <= j < slots.drop_last().len() && slots.drop_last()[j].name == rest[i].0;
                assert(slots[j].name != slots[slots.len() - 1].name);
            }
            if s.value is Obj && !callable_at(heap, s.value->Obj_0 as int) && fuel > 0 {
                lemma_doc_of_wf(heap, s.value->Obj_0 as int, (fuel - 1) as nat);
            }
        }
    }
}

/// Upserting a fresh key appends the pair.
proof fn lemma_upsert_absent(es: Seq<(Seq<char>, Doc)>, k: Seq<char>, d: Doc)
    requires
        forall|i: int| 0 <= i < es.len() ==> (#[trigger] es[i]).0 != k,
    ensures
        doc_upsert(es, k, d) == es.push((k, d)),
    decreases es.len(),
{
    if es.len() == 0 {
        assert(doc_upsert(es, k, d) =~= es.push((k, d)));
    } else {
        assert forall|i: int| 0 <= i < es.drop_first().len() implies (#[trigger] es.drop_first()[
            i
        ]).0 != k by {
            assert(es[i + 1].0 != k);
        }
        lemma_upsert_absent(es.drop_first(), k, d);
        assert(doc_upsert(es, k, d) =~= es.push((k, d)));
    }
}

impl Heap {
    /// Serializes an object's enumerable data into an encoder document,
    /// recursively walking nested non-callable objects: the verified core
    /// of the persisted-storage flush path. Fails only on a string the text
    /// format cannot carry or when the nesting allowance is spent (which a
    /// cyclic data graph forces).
    pub fn recursive_serialize(
        &self,
        h: usize,
        fuel: usize,
        out: &mut json::JsonValue,
    ) -> (r: Result<(), VmError>)
        requires
            self.wf(),
            self.live(h as int),
            jv_doc(*old(out)) == Doc::Obj(Seq::empty()),
        ensures
            r is Ok ==> jv_doc(*final(out)) == doc_of(*self, h as int, fuel as nat),
            serial_ok(*self, h as int, fuel as nat) ==> r is Ok,
            r is Err ==> (r->Err_0 == VmError::DepthExceeded || r->Err_0
                == VmError::StringEncoding || r->Err_0 == VmError::NumberRange),
        decreases fuel,
    {
        let obj = self.read(h);
        let n = obj.base.table.slots.len();
        let mut i: usize = 0;
        proof {
            assert(self.obj_ok(self.obj(h as int)));
            assert(self.table(h as int).take(0) =~= Seq::<SlotV>::empty());
        }
        while i < n
            invariant
                self.wf(),
                self.live(h as int),
                obj == self.obj(h as int),
                n == self.table(h as int).len(),
                i <= n,
                jv_doc(*out) == Doc::Obj(
                    doc_entries(*self, self.table(h as int).take(i as int), fuel as nat),
                ),
            decreases n - i,
        {
            proof {
                assert(self.table(h as int).take(i as int + 1).drop_last() =~= self.table(
                    h as int,
                ).take(i as int));
                assert(self.table(h as int).take(i as int + 1).last() == self.table(h as int)[
                    i as int
                ]);
                assert(self.obj_ok(self.obj(h as int)));
                lemma_doc_entries_keys(
                    *self,
                    self.table(h as int).take(i as int),
                    fuel as nat,
                );
            }
            let slot = &obj.base.table.slots[i];
            let ghost cur = doc_entries(*self, self.table(h as int).take(i as int), fuel as nat);
            proof {
                assert forall|x: int| 0 <= x < cur.len() implies (#[trigger] cur[x]).0
                    != slot.name@ by {
                    let j = choose|j: int|
                        0 <= j < i && self.table(h as int).take(i as int)[j].name == cur[x].0;
                    assert(self.table(h as int)[j].name != self.table(h as int)[i as int].name);
                }
            }
            if slot.attrs.enumerable {
                match &slot.value {
                    Value::Undefined => {},
                    Value::Null => {
                        proof {
                            lemma_upsert_absent(cur, slot.name@, Doc::Null);
                        }
                        jv_insert(out, slot.name.as_str(), jv_null());
                    },
                    Value::Bool(b) => {
                        proof {
                            lemma_upsert_absent(cur, slot.name@, Doc::Bool(*b));
                        }
                        jv_insert(out, slot.name.as_str(), jv_bool(*b));
                    },
                    Value::Num(num) => {
                        if *num == i64::MIN {
                            proof {
                                assert(!serial_ok(*self, h as int, fuel as nat));
                            }
                            return Err(VmError::NumberRange);
                        }
                        proof {
                            lemma_upsert_absent(cur, slot.name@, Doc::Num(*num));
                        }
                        jv_insert(out, slot.name.as_str(), jv_num(*num));
                    },
                    Value::Str(ws) => {
                        let wide = ws.widened();
                        match utf16_to_string(&wide) {
                            None => {
                                proof {
                                    assert(!serial_ok(*self, h as int, fuel as nat));
                                }
                                return Err(VmError::StringEncoding);
                            },
                            Some(text) => {
                                proof {
                                    lemma_upsert_absent(cur, slot.name@, Doc::Str(ws@));
                                }
                                jv_insert(out, slot.name.as_str(), jv_str(text.as_str()));
                            },
                        }
                    },
                    Value::Object(o) => {
                        let target = self.read(*o);
                        if target.as_function().is_some() {
                        } else if fuel == 0 {
                            proof {
                                assert(!serial_ok(*self, h as int, fuel as nat));
                            }
                            return Err(VmError::DepthExceeded);
                        } else {
                            let mut child = jv_new_object();
                            match self.recursive_serialize(*o, fuel - 1, &mut child) {
                                Err(e) => {
                                    proof {
                                        assert(!serial_ok(*self, h as int, fuel as nat));
                                    }
                                    return Err(e);
                                },
                                Ok(()) => {
                                    proof {
                                        lemma_upsert_absent(
                                            cur,
                                            slot.name@,
                                            doc_of(*self, *o as int, (fuel - 1) as nat),
                                        );
                                    }
                                    jv_insert(out, slot.name.as_str(), child);
                                },
                            }
                        }
                    },
                }
            }
            i += 1;
        }
        proof {
            assert(self.table(h as int).take(n as int) =~= self.table(h as int));
        }
        Ok(())
    }

    /// Serializes an object's enumerable data to its canonical text: what
    /// the flush path hands to the persisted-storage collaborator.
    pub fn serialize_to_text(&self, h: usize, fuel: usize) -> (r: Result<String, VmError>)
        requires
            self.wf(),
            self.live(h as int),
        ensures
            r is Ok ==> r->Ok_0@ == doc_text_of(doc_of(*self, h as int, fuel as nat)),
            serial_ok(*self, h as int, fuel as nat) ==> r is Ok,
            r is Err ==> (r->Err_0 == VmError::DepthExceeded || r->Err_0
                == VmError::StringEncoding || r->Err_0 == VmError::NumberRange),
    {
        let mut out = jv_new_object();
        match self.recursive_serialize(h, fuel, &mut out) {
            Err(e) => Err(e),
            Ok(()) => {
                proof {
                    lemma_doc_of_wf(*self, h as int, fuel as nat);
                }
                Ok(jv_dump(&out))
            },
        }
    }
}

/// A reconstructed value mirrors a document node: leaves directly, a
/// nested object through a live cell — allocated at or past `base` — whose
/// table mirrors the nested entries.
pub open spec fn value_matches(heap: Heap, val: VVal, d: Doc, base: int) -> bool
    decreases d, 1nat,
{
    match d {
        Doc::Null => val == VVal::Null,
        Doc::Bool(b) => val == VVal::Bool(b),
        Doc::Num(n) => val == VVal::Num(n),
        Doc::Str(u) => val == VVal::Str(u),
        Doc::Obj(es2) => val is Obj && base <= val->Obj_0 && heap.live(val->Obj_0 as int)
            && entries_match(heap, val->Obj_0 as int, es2, base),
        Doc::Other => false,
    }
}

/// A reconstructed object's table mirrors a document's entries: same names
/// in the same order, default attributes, values matching node for node.
pub open spec fn entries_match(heap: Heap, h: int, es: Seq<(Seq<char>, Doc)>, base: int) -> bool
    decreases es, 1nat,
{
    heap.live(h) && heap.table(h).len() == es.len() && entries_match_rec(heap, h, es, base)
}

/// Entry-by-entry table/document agreement, from the back.
pub open spec fn entries_match_rec(heap: Heap, h: int, es: Seq<(Seq<char>, Doc)>, base: int) -> bool
    decreases es, 0nat,
{
    if es.len() == 0 {
        true
    } else {
        entries_match_rec(heap, h, es.drop_last(), base) && heap.table(h)[es.len() - 1].name
            == es.last().0 && heap.table(h)[es.len() - 1].attrs
            == Attributes::spec_enumerable_only() && value_matches(
            heap,
            heap.table(h)[es.len() - 1].value,
            es.last().1,
            base,
        )
    }
}

/// The slot facts at one position, out of an entry-by-entry agreement.
proof fn lemma_entries_index(heap: Heap, h: int, es: Seq<(Seq<char>, Doc)>, base: int, i: int)
    requires
        entries_match_rec(heap, h, es, base),
        0 <= i < es.len(),
    ensures
        heap.table(h)[i].name == es[i].0,
        heap.table(h)[i].attrs == Attributes::spec_enumerable_only(),
        value_matches(heap, heap.table(h)[i].value, es[i].1, base),
    decreases es.len(),
{
    if i < es.len() - 1 {
        assert(es.drop_last()[i] == es[i]);
        lemma_entries_index(heap, h, es.drop_last(), base, i);
    }
}

/// An entry-by-entry agreement, out of the slot facts at every position.
proof fn lemma_entries_build(heap: Heap, h: int, es: Seq<(Seq<char>, Doc)>, base: int)
    requires
        forall|i: int|
            0 <= i < es.len() ==> (#[trigger] heap.table(h)[i]).name == es[i].0 && heap.table(h)[
                i
            ].attrs == Attributes::spec_enumerable_only() && value_matches(
                heap,
                heap.table(h)[i].value,
                es[i].1,
                base,
            ),
    ensures
        entries_match_rec(heap, h, es, base),
    decreases es.len(),
{
    if es.len() > 0 {
        assert forall|i: int|
            0 <= i < es.drop_last().len() implies (#[trigger] heap.table(h)[i]).name
            == es.drop_last()[i].0 && heap.table(h)[i].attrs
            == Attributes::spec_enumerable_only() && value_matches(
            heap,
            heap.table(h)[i].value,
            es.drop_last()[i].1,
            base,
        ) by {
            assert(es.drop_last()[i] == es[i]);
        }
        lemma_entries_build(heap, h, es.drop_last(), base);
        assert(heap.table(h)[es.len() - 1].name == es[es.len() - 1].0);
    }
}

/// A match is stable under heap growth that leaves the cells at or past
/// `base` untouched.
proof fn lemma_value_frame(pre: Heap, post: Heap, val: VVal, d: Doc, base: int)
    requires
        value_matches(pre, val, d, base),
        forall|y: int| base <= y < pre.cells@.len() ==> post.cells@[y] == pre.cells@[y],
        post.cells@.len() >= pre.cells@.len(),
    ensures
        value_matches(post, val, d, base),
    decreases d, 1nat,
{
    match d {
        Doc::Obj(es2) => {
            let o = val->Obj_0 as int;
            assert(post.cells@[o] == pre.cells@[o]);
            lemma_entries_rec_frame(pre, post, o, es2, base);
        },
        _ => {},
    }
}

proof fn lemma_entries_rec_frame(
    pre: Heap,
    post: Heap,
    x: int,
    es: Seq<(Seq<char>, Doc)>,
    base: int,
)
    requires
        entries_match_rec(pre, x, es, base),
        base <= x < pre.cells@.len(),
        post.cells@[x] == pre.cells@[x],
        forall|y: int| base <= y < pre.cells@.len() ==> post.cells@[y] == pre.cells@[y],
        post.cells@.len() >= pre.cells@.len(),
    ensures
        entries_match_rec(post, x, es, base),
    decreases es, 0nat,
{
    if es.len() > 0 {
        lemma_entries_rec_frame(pre, post, x, es.drop_last(), base);
        lemma_value_frame(pre, post, pre.table(x)[es.len() - 1].value, es.last().1, base);
    }
}

/// A match for a later base also holds for an earlier one.
proof fn lemma_value_mono(heap: Heap, val: VVal, d: Doc, b1: int, b2: int)
    requires
        value_matches(heap, val, d, b2),
        b1 <= b2,
    ensures
        value_matches(heap, val, d, b1),
    decreases d, 1nat,
{
    match d {
        Doc::Obj(es2) => {
            lemma_entries_rec_mono(heap, val->Obj_0 as int, es2, b1, b2);
        },
        _ => {},
    }
}

proof fn lemma_entries_rec_mono(heap: Heap, x: int, es: Seq<(Seq<char>, Doc)>, b1: int, b2: int)
    requires
        entries_match_rec(heap, x, es, b2),
        b1 <= b2,
    ensures
        entries_match_rec(heap, x, es, b1),
    decreases es, 0nat,
{
    if es.len() > 0 {
        lemma_entries_rec_mono(heap, x, es.drop_last(), b1, b2);
        lemma_value_mono(heap, heap.table(x)[es.len() - 1].value, es.last().1, b1, b2);
    }
}

/// Each entry's depth is bounded by the entries' joint depth.
proof fn lemma_entries_depth_bound(es: Seq<(Seq<char>, Doc)>, i: int)
    requires
        0 <= i < es.len(),
    ensures
        doc_depth(es[i].1) <= entries_depth(es),
    decreases es,
{
    if i > 0 {
        lemma_entries_depth_bound(es.drop_first(), i - 1);
        assert(es.drop_first()[i - 1] == es[i]);
    }
}

/// Reconstructs properties from an encoder document onto a bare object:
/// the verified core of the persisted-storage load path. Each entry of the
/// document becomes an enumerable own slot, nested documents becoming
/// freshly allocated script objects under the registry's object prototype;
/// entries outside the model — arrays, non-integral numbers — are
/// skipped, as on write. A document with duplicate keys falls outside the
/// stated mirror contract; its entries are still defined in order, later
/// values overwriting earlier ones.
pub fn parse_json(
    heap: &mut Heap,
    mc: &Mutation,
    protos: &ProtoRegistry,
    h: usize,
    v: &json::JsonValue,
    fuel: usize,
) -> (r: Result<(), VmError>)
    requires
        old(heap).wf(),
        old(heap).live(h as int),
        protos.ok(*old(heap)),
        old(heap).table(h as int) == Seq::<SlotV>::empty(),
    ensures
        final(heap).wf(),
        old(heap).retained_by(*final(heap)),
        protos.ok(*final(heap)),
        final(heap).cells@.len() >= old(heap).cells@.len(),
        forall|x: int| 0 <= x < old(heap).cells@.len() && x != h ==> final(heap).cells@[x] == old(
            heap,
        ).cells@[x],
        final(heap).live(h as int),
        final(heap).proto_of(h as int) == old(heap).proto_of(h as int),
        final(heap).obj(h as int).kind == old(heap).obj(h as int).kind,
        (r is Ok && jv_doc(*v) is Obj && wf_doc(jv_doc(*v))) ==> entries_match(
            *final(heap),
            h as int,
            jv_doc(*v)->Obj_0,
            old(heap).cells@.len() as int,
        ),
        (jv_doc(*v) is Obj && wf_doc(jv_doc(*v)) && doc_depth(jv_doc(*v)) <= fuel) ==> r is Ok,
        !(jv_doc(*v) is Obj) ==> r is Ok && *final(heap) == *old(heap),
        r is Err ==> r->Err_0 == VmError::DepthExceeded,
    decreases fuel,
{
    match jv_read(v) {
        JvKind::Obj => {},
        _ => {
            return Ok(());
        },
    }
    let entries = jv_entries(v);
    let ghost es0 = jv_doc(*v)->Obj_0;
    let ghost olen = old(heap).cells@.len() as int;
    let n = entries.len();
    let mut i: usize = 0;
    while i < n
        invariant
            heap.wf(),
            old(heap).retained_by(*heap),
            protos.ok(*heap),
            heap.cells@.len() >= olen,
            olen == old(heap).cells@.len() as int,
            forall|x: int| 0 <= x < olen && x != h ==> heap.cells@[x] == old(heap).cells@[x],
            heap.live(h as int),
            (h as int) < olen,
            heap.proto_of(h as int) == old(heap).proto_of(h as int),
            heap.obj(h as int).kind == old(heap).obj(h as int).kind,
            jv_doc(*v) is Obj,
            es0 == jv_doc(*v)->Obj_0,
            n == entries@.len(),
            i <= n,
            es0.len() == n,
            forall|k: int|
                0 <= k < n ==> (#[trigger] entries@[k]).0@ == es0[k].0 && jv_doc(entries@[k].1)
                    == es0[k].1,
            wf_doc(Doc::Obj(es0)) ==> heap.table(h as int).len() == i,
            wf_doc(Doc::Obj(es0)) ==> forall|j: int|
                0 <= j < i ==> (#[trigger] heap.table(h as int)[j]).name == es0[j].0 && heap.table(
                    h as int,
                )[j].attrs == Attributes::spec_enumerable_only() && value_matches(
                    *heap,
                    heap.table(h as int)[j].value,
                    es0[j].1,
                    olen,
                ),
        decreases n - i,
    {
        let ghost pre = *heap;
        let entry = &entries[i];
        proof {
            if wf_doc(Doc::Obj(es0)) {
                let name = es0[i as int].0;
                crate::property::lemma_find_idx(pre.table(h as int), name);
                if crate::property::has_key(pre.table(h as int), name) {
                    let j = crate::property::find_idx(pre.table(h as int), name);
                    assert(pre.table(h as int)[j].name == es0[j].0);
                    assert(es0[j].0 == es0[i as int].0);
                    assert(false);
                }
            }
        }
        match jv_read(&entry.1) {
            JvKind::Null => {
                heap.define_value(mc, h, &entry.0, Value::Null, Attributes::enumerable_only());
            },
            JvKind::Bool(b) => {
                heap.define_value(mc, h, &entry.0, Value::Bool(b), Attributes::enumerable_only());
            },
            JvKind::Num => {
                match jv_number_parts(&entry.1) {
                    Some((pos, mant, exp)) => {
                        let canonical = exp == 0 && (if pos {
                            mant <= (i64::MAX as u64)
                        } else {
                            1 <= mant && mant <= 0x8000000000000000u64
                        });
                        if canonical {
                            let num: i64 = if pos {
                                mant as i64
                            } else if mant == 0x8000000000000000u64 {
                                i64::MIN
                            } else {
                                -(mant as i64)
                            };
                            proof {
                                if wf_doc(Doc::Obj(es0)) {
                                    assert(wf_doc(es0[i as int].1));
                                    assert(jv_doc(entry.1) == Doc::Num(
                                        parts_value((pos, mant, exp)),
                                    ));
                                    assert(parts_value((pos, mant, exp)) == num);
                                }
                            }
                            heap.define_value(
                                mc,
                                h,
                                &entry.0,
                                Value::Num(num),
                                Attributes::enumerable_only(),
                            );
                        } else {
                            // a NaN or decimal value models no document
                            proof {
                                if wf_doc(Doc::Obj(es0)) {
                                    assert(wf_doc(es0[i as int].1));
                                    assert(jv_doc(entry.1) is Num);
                                    assert((pos, mant, exp) == canonical_parts(
                                        jv_doc(entry.1)->Num_0,
                                    ));
                                    assert(false);
                                }
                            }
                        }
                    },
                    None => {
                        proof {
                            if wf_doc(Doc::Obj(es0)) {
                                assert(wf_doc(es0[i as int].1));
                                assert(false);
                            }
                        }
                    },
                }
            },
            JvKind::Str(text) => {
                let units = string_units(text.as_str());
                heap.define_value(
                    mc,
                    h,
                    &entry.0,
                    Value::Str(crate::wstr::WString::from_wide(units)),
                    Attributes::enumerable_only(),
                );
            },
            JvKind::Obj => {
                if fuel == 0 {
                    proof {
                        if wf_doc(Doc::Obj(es0)) && doc_depth(Doc::Obj(es0)) <= fuel {
                            lemma_entries_depth_bound(es0, i as int);
                            assert(doc_depth(es0[i as int].1) >= 1);
                            assert(false);
                        }
                    }
                    return Err(VmError::DepthExceeded);
                }
                let child = heap.new_object(mc, Some(protos.object));
                let ghost mid = *heap;
                match parse_json(heap, mc, protos, child, &entry.1, fuel - 1) {
                    Err(e) => {
                        proof {
                            if wf_doc(Doc::Obj(es0)) && doc_depth(Doc::Obj(es0)) <= fuel {
                                lemma_entries_depth_bound(es0, i as int);
                                assert(wf_doc(es0[i as int].1));
                                assert(false);
                            }
                        }
                        return Err(e);
                    },
                    Ok(()) => {
                        let ghost recfinal = *heap;
                        heap.define_value(
                            mc,
                            h,
                            &entry.0,
                            Value::Object(child),
                            Attributes::enumerable_only(),
                        );
                        proof {
                            if wf_doc(Doc::Obj(es0)) {
                                assert(wf_doc(es0[i as int].1));
                                let es2 = es0[i as int].1->Obj_0;
                                lemma_entries_rec_mono(
                                    recfinal,
                                    child as int,
                                    es2,
                                    olen,
                                    mid.cells@.len() as int,
                                );
                                lemma_entries_rec_frame(recfinal, *heap, child as int, es2, olen);
                            }
                        }
                    },
                }
            },
            JvKind::Other => {
                proof {
                    if wf_doc(Doc::Obj(es0)) {
                        assert(wf_doc(es0[i as int].1));
                        assert(false);
                    }
                }
            },
        }
        i += 1;
        proof {
            if wf_doc(Doc::Obj(es0)) {
                assert forall|j: int|
                    0 <= j < i implies (#[trigger] heap.table(h as int)[j]).name == es0[j].0
                    && heap.table(h as int)[j].attrs == Attributes::spec_enumerable_only()
                    && value_matches(*heap, heap.table(h as int)[j].value, es0[j].1, olen) by {
                    if j < i - 1 {
                        assert(heap.table(h as int)[j] == pre.table(h as int)[j]);
                        lemma_value_frame(pre, *heap, pre.table(h as int)[j].value, es0[j].1, olen);
                    }
                }
            }
        }
    }
    proof {
        if wf_doc(Doc::Obj(es0)) {
            lemma_entries_build(*heap, h as int, es0, olen);
            assert(entries_match(*heap, h as int, es0, olen));
        }
    }
    Ok(())
}

} // verus!
