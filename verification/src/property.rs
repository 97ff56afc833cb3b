//! The ordered, name-keyed property table.
//!
//! Each slot carries a value and an attribute set (enumerable, read-only,
//! non-deletable). Slots are kept in insertion order, which is also the
//! enumeration order; a name is unique within one table. Writing a slot
//! flagged read-only is a silent no-op, and deleting a slot flagged
//! non-deletable fails and leaves the slot untouched — both by design, to
//! match legacy non-strict semantics.

use vstd::prelude::*;

use crate::Attributes;
use crate::value::{vv, VVal, Value};

verus! {

/// One property slot: an identifier, a value, an attribute set.
#[derive(Debug)]
pub struct Slot {
    pub name: String,
    pub value: Value,
    pub attrs: Attributes,
}

/// The mathematical model of a slot.
pub struct SlotV {
    pub name: Seq<char>,
    pub value: VVal,
    pub attrs: Attributes,
}

/// The model of a slot.
pub open spec fn sv(s: Slot) -> SlotV {
    SlotV { name: s.name@, value: vv(s.value), attrs: s.attrs }
}

/// Index of the first slot with the given name, or -1.
pub open spec fn find_idx(s: Seq<SlotV>, k: Seq<char>) -> int
    decreases s.len(),
{
    if s.len() == 0 {
        -1
    } else if s[0].name == k {
        0
    } else {
        let r = find_idx(s.drop_first(), k);
        if r < 0 {
            -1
        } else {
            r + 1
        }
    }
}

/// Whether some slot carries the given name.
pub open spec fn has_key(s: Seq<SlotV>, k: Seq<char>) -> bool {
    find_idx(s, k) >= 0
}

/// The value of the slot with the given name.
pub open spec fn val_of(s: Seq<SlotV>, k: Seq<char>) -> VVal {
    s[find_idx(s, k)].value
}

/// The attribute set of the slot with the given name.
pub open spec fn attrs_of(s: Seq<SlotV>, k: Seq<char>) -> Attributes {
    s[find_idx(s, k)].attrs
}

/// No two slots share a name.
pub open spec fn keys_unique(s: Seq<SlotV>) -> bool {
    forall|i: int, j: int| 0 <= i < j < s.len() ==> s[i].name != s[j].name
}

/// The enumerable slot names, in table order.
pub open spec fn enum_keys(s: Seq<SlotV>) -> Seq<Seq<char>>
    decreases s.len(),
{
    if s.len() == 0 {
        Seq::empty()
    } else {
        let rest = enum_keys(s.drop_last());
        if s.last().attrs.enumerable {
            rest.push(s.last().name)
        } else {
            rest
        }
    }
}

/// All slot names, in table order.
pub open spec fn all_keys(s: Seq<SlotV>) -> Seq<Seq<char>> {
    s.map_values(|x: SlotV| x.name)
}

/// The name sequences of a vector of strings.
pub open spec fn key_views(v: Seq<String>) -> Seq<Seq<char>> {
    v.map_values(|s: String| s@)
}

/// What `find_idx` finds: the first slot of that name, and nothing earlier.
pub proof fn lemma_find_idx(s: Seq<SlotV>, k: Seq<char>)
    ensures
        find_idx(s, k) >= 0 ==> 0 <= find_idx(s, k) < s.len() && s[find_idx(s, k)].name == k
            && forall|j: int| 0 <= j < find_idx(s, k) ==> s[j].name != k,
        find_idx(s, k) < 0 ==> forall|j: int| 0 <= j < s.len() ==> s[j].name != k,
    decreases s.len(),
{
    if s.len() > 0 && s[0].name != k {
        lemma_find_idx(s.drop_first(), k);
        let r = find_idx(s.drop_first(), k);
        if r >= 0 {
            assert(s[r + 1] == s.drop_first()[r]);
            assert forall|j: int| 0 <= j < r + 1 implies s[j].name != k by {
                if j > 0 {
                    assert(s.drop_first()[j - 1] == s[j]);
                }
            }
        } else {
            assert forall|j: int| 0 <= j < s.len() implies s[j].name != k by {
                if j > 0 {
                    assert(s.drop_first()[j - 1] == s[j]);
                }
            }
        }
    }
}

/// A slot of the sought name below which none carries it is the one found.
pub proof fn lemma_find_at(s: Seq<SlotV>, k: Seq<char>, i: int)
    requires
        0 <= i < s.len(),
        s[i].name == k,
        forall|j: int| 0 <= j < i ==> s[j].name != k,
    ensures
        find_idx(s, k) == i,
    decreases s.len(),
{
    if i > 0 {
        lemma_find_at(s.drop_first(), k, i - 1);
    }
}

/// An ordered, name-keyed collection of slots, owned by exactly one object.
#[derive(Debug)]
pub struct PropertyTable {
    pub slots: Vec<Slot>,
}

impl View for PropertyTable {
    type V = Seq<SlotV>;

    open spec fn view(&self) -> Seq<SlotV> {
        self.slots@.map_values(|s: Slot| sv(s))
    }
}

impl PropertyTable {
    /// Table well-formedness: slot names are unique.
    pub open spec fn wf(&self) -> bool {
        keys_unique(self@)
    }

    /// A fresh, empty table.
    pub fn new() -> (r: PropertyTable)
        ensures
            r@ == Seq::<SlotV>::empty(),
            r.wf(),
    {
        let r = PropertyTable { slots: Vec::new() };
        proof {
            assert(r@ =~= Seq::<SlotV>::empty());
        }
        r
    }

    /// Index of the slot with the given name, if any.
    fn index_of(&self, name: &String) -> (r: Option<usize>)
        ensures
            match r {
                Some(i) => i == find_idx(self@, name@) && i < self@.len(),
                None => !has_key(self@, name@),
            },
    {
        let n = self.slots.len();
        let mut i: usize = 0;
        while i < n
            invariant
                n == self@.len(),
                i <= n,
                forall|j: int| 0 <= j < i ==> self@[j].name != name@,
            decreases n - i,
        {
            if self.slots[i].name == *name {
                proof {
                    lemma_find_at(self@, name@, i as int);
                }
                return Some(i);
            }
            i += 1;
        }
        proof {
            lemma_find_idx(self@, name@);
            if has_key(self@, name@) {
                assert(self@[find_idx(self@, name@)].name == name@);
            }
        }
        None
    }

    /// The value of the own slot with the given name, if any.
    pub fn get_own(&self, name: &String) -> (r: Option<&Value>)
        ensures
            match r {
                Some(v) => has_key(self@, name@) && vv(*v) == val_of(self@, name@),
                None => !has_key(self@, name@),
            },
    {
        match self.index_of(name) {
            Some(i) => Some(&self.slots[i].value),
            None => None,
        }
    }

    /// The attribute set of the own slot with the given name, if any.
    pub fn get_own_attrs(&self, name: &String) -> (r: Option<Attributes>)
        ensures
            match r {
                Some(a) => has_key(self@, name@) && a == attrs_of(self@, name@),
                None => !has_key(self@, name@),
            },
    {
        match self.index_of(name) {
            Some(i) => Some(self.slots[i].attrs),
            None => None,
        }
    }

    /// Creates or overwrites a slot, honouring attribute rules: a missing
    /// name is created with the given attributes; an existing slot keeps its
    /// name, position and attributes and takes the new value — unless it is
    /// flagged read-only, in which case nothing changes and no error is
    /// raised.
    pub fn set_own(&mut self, name: &String, value: Value, attrs: Attributes)
        requires
            old(self).wf(),
        ensures
            final(self).wf(),
            !has_key(old(self)@, name@) ==> final(self)@ == old(self)@.push(
                SlotV { name: name@, value: vv(value), attrs },
            ),
            has_key(old(self)@, name@) && attrs_of(old(self)@, name@).read_only ==> final(self)@
                == old(self)@,
            has_key(old(self)@, name@) && !attrs_of(old(self)@, name@).read_only
                ==> final(self)@ == old(self)@.update(
                find_idx(old(self)@, name@),
                SlotV {
                    name: name@,
                    value: vv(value),
                    attrs: attrs_of(old(self)@, name@),
                },
            ),
    {
        proof {
            lemma_find_idx(self@, name@);
        }
        match self.index_of(name) {
            None => {
                self.slots.push(Slot { name: name.clone(), value, attrs });
                proof {
                    assert(self@ =~= old(self)@.push(
                        SlotV { name: name@, value: vv(value), attrs },
                    ));
                    assert forall|i: int, j: int|
                        0 <= i < j < self@.len() implies self@[i].name != self@[j].name by {
                        if j == self@.len() - 1 {
                            assert(self@[i].name != name@);
                        }
                    }
                }
            },
            Some(i) => {
                if !self.slots[i].attrs.read_only {
                    let kept_name = self.slots[i].name.clone();
                    let kept_attrs = self.slots[i].attrs;
                    self.slots.set(i, Slot { name: kept_name, value, attrs: kept_attrs });
                    proof {
                        assert(self@ =~= old(self)@.update(
                            i as int,
                            SlotV {
                                name: name@,
                                value: vv(value),
                                attrs: attrs_of(old(self)@, name@),
                            },
                        ));
                    }
                } else {
                    proof {
                        assert(self@ =~= old(self)@);
                    }
                }
            },
        }
    }

    /// Writes a slot unconditionally, bypassing every attribute check: used
    /// when wiring up built-in members during object and prototype
    /// construction, never reachable from script-level assignment.
    pub fn force_set(&mut self, name: &String, value: Value, attrs: Attributes)
        requires
            old(self).wf(),
        ensures
            final(self).wf(),
            !has_key(old(self)@, name@) ==> final(self)@ == old(self)@.push(
                SlotV { name: name@, value: vv(value), attrs },
            ),
            has_key(old(self)@, name@) ==> final(self)@ == old(self)@.update(
                find_idx(old(self)@, name@),
                SlotV { name: name@, value: vv(value), attrs },
            ),
    {
        proof {
            lemma_find_idx(self@, name@);
        }
        match self.index_of(name) {
            None => {
                self.slots.push(Slot { name: name.clone(), value, attrs });
                proof {
                    assert(self@ =~= old(self)@.push(
                        SlotV { name: name@, value: vv(value), attrs },
                    ));
                    assert forall|i: int, j: int|
                        0 <= i < j < self@.len() implies self@[i].name != self@[j].name by {
                        if j == self@.len() - 1 {
                            assert(self@[i].name != name@);
                        }
                    }
                }
            },
            Some(i) => {
                self.slots.set(i, Slot { name: name.clone(), value, attrs });
                proof {
                    assert(self@ =~= old(self)@.update(
                        i as int,
                        SlotV { name: name@, value: vv(value), attrs },
                    ));
                }
            },
        }
    }

    /// Deletes the slot with the given name. A slot flagged non-deletable is
    /// left untouched and the call reports failure; a missing name also
    /// reports failure.
    pub fn delete_own(&mut self, name: &String) -> (r: bool)
        requires
            old(self).wf(),
        ensures
            final(self).wf(),
            !has_key(old(self)@, name@) ==> r == false && final(self)@ == old(self)@,
            has_key(old(self)@, name@) && attrs_of(old(self)@, name@).non_deletable ==> r == false
                && final(self)@ == old(self)@,
            has_key(old(self)@, name@) && !attrs_of(old(self)@, name@).non_deletable ==> r == true
                && final(self)@ == old(self)@.remove(find_idx(old(self)@, name@)),
    {
        proof {
            lemma_find_idx(self@, name@);
        }
        match self.index_of(name) {
            None => false,
            Some(i) => {
                if self.slots[i].attrs.non_deletable {
                    false
                } else {
                    self.slots.remove(i);
                    proof {
                        assert(self@ =~= old(self)@.remove(i as int));
                        assert forall|x: int, y: int|
                            0 <= x < y < self@.len() implies self@[x].name != self@[y].name by {
                            let ox = if x < i as int {
                                x
                            } else {
                                x + 1
                            };
                            let oy = if y < i as int {
                                y
                            } else {
                                y + 1
                            };
                            assert(old(self)@[ox].name != old(self)@[oy].name);
                        }
                    }
                    true
                }
            },
        }
    }

    /// The enumerable own names, in the order they were first set.
    pub fn keys(&self) -> (r: Vec<String>)
        ensures
            key_views(r@) == enum_keys(self@),
    {
        let n = self.slots.len();
        let mut out: Vec<String> = Vec::new();
        let mut i: usize = 0;
        proof {
            assert(self@.take(0) =~= Seq::<SlotV>::empty());
        }
        while i < n
            invariant
                n == self@.len(),
                i <= n,
                out@.len() == enum_keys(self@.take(i as int)).len(),
                forall|j: int| 0 <= j < out@.len() ==> out@[j]@ == enum_keys(
                    self@.take(i as int),
                )[j],
            decreases n - i,
        {
            if self.slots[i].attrs.enumerable {
                out.push(self.slots[i].name.clone());
            }
            i += 1;
            proof {
                let prev = self@.take(i as int - 1);
                let cur = self@.take(i as int);
                assert(cur.drop_last() =~= prev);
                assert(cur.last() == self@[i as int - 1]);
                assert forall|j: int| 0 <= j < out@.len() implies out@[j]@ == enum_keys(cur)[j]
                    by {
                    if j < enum_keys(prev).len() {
                        assert(enum_keys(cur)[j] == enum_keys(prev)[j]);
                    }
                }
            }
        }
        proof {
            assert(self@.take(n as int) =~= self@);
            assert(key_views(out@) =~~= enum_keys(self@));
        }
        out
    }

    /// Every own name, enumerable or not, in table order.
    pub fn keys_all(&self) -> (r: Vec<String>)
        ensures
            key_views(r@) == all_keys(self@),
    {
        let n = self.slots.len();
        let mut out: Vec<String> = Vec::new();
        let mut i: usize = 0;
        while i < n
            invariant
                n == self@.len(),
                i <= n,
                out@.len() == i as int,
                forall|j: int| 0 <= j < i ==> out@[j]@ == self@[j].name,
            decreases n - i,
        {
            out.push(self.slots[i].name.clone());
            i += 1;
        }
        proof {
            assert(key_views(out@) =~~= all_keys(self@));
        }
        out
    }
}

/// Deleting one slot touches no other name: every other key keeps its
/// value and attributes, and the removed slot's own name is gone.
pub proof fn lemma_remove_other_keys(s: Seq<SlotV>, idx: int)
    requires
        keys_unique(s),
        0 <= idx < s.len(),
    ensures
        keys_unique(s.remove(idx)),
        !has_key(s.remove(idx), s[idx].name),
        forall|k: Seq<char>|
            k != s[idx].name ==> #[trigger] has_key(s.remove(idx), k) == has_key(s, k) && (
            has_key(s, k) ==> val_of(s.remove(idx), k) == val_of(s, k) && attrs_of(
                s.remove(idx),
                k,
            ) == attrs_of(s, k)),
{
    let t = s.remove(idx);
    assert forall|x: int, y: int| 0 <= x < y < t.len() implies t[x].name != t[y].name by {
        let ox = if x < idx { x } else { x + 1 };
        let oy = if y < idx { y } else { y + 1 };
        assert(s[ox].name != s[oy].name);
    }
    lemma_find_idx(t, s[idx].name);
    if has_key(t, s[idx].name) {
        let fi = find_idx(t, s[idx].name);
        let oi = if fi < idx { fi } else { fi + 1 };
        assert(s[oi].name == s[idx].name);
        assert(false);
    }
    assert forall|k: Seq<char>| k != s[idx].name implies #[trigger] has_key(t, k) == has_key(
        s,
        k,
    ) && (has_key(s, k) ==> val_of(t, k) == val_of(s, k) && attrs_of(t, k) == attrs_of(s, k)) by {
        lemma_find_idx(s, k);
        lemma_find_idx(t, k);
        if has_key(s, k) {
            let i0 = find_idx(s, k);
            let j0 = if i0 < idx { i0 } else { i0 - 1 };
            assert(t[j0] == s[i0]);
            assert forall|j: int| 0 <= j < j0 implies t[j].name != k by {
                let oj = if j < idx { j } else { j + 1 };
                assert(s[oj].name != k);
            }
            lemma_find_at(t, k, j0);
        } else {
            if has_key(t, k) {
                let j1 = find_idx(t, k);
                let o1 = if j1 < idx { j1 } else { j1 + 1 };
                assert(s[o1].name == k);
                assert(false);
            }
        }
    }
}

/// Appending a slot under a fresh name touches no other name, and makes
/// its own name retrievable with exactly the stored value and attributes.
pub proof fn lemma_push_other_keys(s: Seq<SlotV>, slot: SlotV)
    requires
        keys_unique(s),
        !has_key(s, slot.name),
    ensures
        keys_unique(s.push(slot)),
        has_key(s.push(slot), slot.name),
        val_of(s.push(slot), slot.name) == slot.value,
        attrs_of(s.push(slot), slot.name) == slot.attrs,
        forall|k: Seq<char>|
            k != slot.name ==> #[trigger] has_key(s.push(slot), k) == has_key(s, k) && (has_key(
                s,
                k,
            ) ==> val_of(s.push(slot), k) == val_of(s, k) && attrs_of(s.push(slot), k)
                == attrs_of(s, k)),
{
    let t = s.push(slot);
    lemma_find_idx(s, slot.name);
    assert forall|x: int, y: int| 0 <= x < y < t.len() implies t[x].name != t[y].name by {
        if y < t.len() - 1 {
            assert(s[x].name != s[y].name);
        } else if x < t.len() - 1 {
            assert(s[x].name != slot.name);
        }
    }
    assert forall|j: int| 0 <= j < s.len() implies t[j].name != slot.name by {
        assert(s[j].name != slot.name);
    }
    lemma_find_at(t, slot.name, s.len() as int);
    assert forall|k: Seq<char>|
        k != slot.name implies #[trigger] has_key(t, k) == has_key(s, k) && (has_key(s, k)
        ==> val_of(t, k) == val_of(s, k) && attrs_of(t, k) == attrs_of(s, k)) by {
        lemma_find_idx(s, k);
        lemma_find_idx(t, k);
        if has_key(s, k) {
            let i0 = find_idx(s, k);
            assert(t[i0] == s[i0]);
            assert forall|j: int| 0 <= j < i0 implies t[j].name != k by {
                assert(s[j].name != k);
            }
            lemma_find_at(t, k, i0);
        } else {
            if has_key(t, k) {
                let j1 = find_idx(t, k);
                if j1 < s.len() {
                    assert(s[j1].name == k);
                } else {
                    assert(slot.name == k);
                }
                assert(false);
            }
        }
    }
}

/// Overwriting the slot of an existing name in place touches no other
/// name, and makes its own name retrieve exactly the new value and
/// attributes.
pub proof fn lemma_update_other_keys(s: Seq<SlotV>, idx: int, slot: SlotV)
    requires
        keys_unique(s),
        0 <= idx < s.len(),
        slot.name == s[idx].name,
    ensures
        keys_unique(s.update(idx, slot)),
        has_key(s.update(idx, slot), slot.name),
        val_of(s.update(idx, slot), slot.name) == slot.value,
        attrs_of(s.update(idx, slot), slot.name) == slot.attrs,
        forall|k: Seq<char>|
            k != slot.name ==> #[trigger] has_key(s.update(idx, slot), k) == has_key(s, k) && (
            has_key(s, k) ==> val_of(s.update(idx, slot), k) == val_of(s, k) && attrs_of(
                s.update(idx, slot),
                k,
            ) == attrs_of(s, k)),
{
    let t = s.update(idx, slot);
    assert forall|x: int, y: int| 0 <= x < y < t.len() implies t[x].name != t[y].name by {
        assert(s[x].name != s[y].name);
    }
    lemma_find_idx(s, slot.name);
    assert forall|j: int| 0 <= j < idx implies t[j].name != slot.name by {
        assert(s[j].name != s[idx].name);
    }
    lemma_find_at(t, slot.name, idx);
    assert forall|k: Seq<char>|
        k != slot.name implies #[trigger] has_key(t, k) == has_key(s, k) && (has_key(s, k)
        ==> val_of(t, k) == val_of(s, k) && attrs_of(t, k) == attrs_of(s, k)) by {
        lemma_find_idx(s, k);
        lemma_find_idx(t, k);
        if has_key(s, k) {
            let i0 = find_idx(s, k);
            assert(t[i0] == s[i0]);
            assert forall|j: int| 0 <= j < i0 implies t[j].name != k by {
                assert(s[j].name != k);
            }
            lemma_find_at(t, k, i0);
        } else {
            if has_key(t, k) {
                let j1 = find_idx(t, k);
                assert(t[j1].name == k);
                if j1 == idx {
                    assert(slot.name == k);
                } else {
                    assert(s[j1].name == k);
                }
                assert(false);
            }
        }
    }
}

/// Every enumerated name is an own enumerable key.
pub proof fn lemma_enum_keys_member(s: Seq<SlotV>, j: int)
    requires
        keys_unique(s),
        0 <= j < enum_keys(s).len(),
    ensures
        has_key(s, enum_keys(s)[j]),
        attrs_of(s, enum_keys(s)[j]).enumerable,
    decreases s.len(),
{
    lemma_enum_keys_index(s, j);
    let i = choose|i: int|
        0 <= i < s.len() && s[i].name == enum_keys(s)[j] && s[i].attrs.enumerable;
    lemma_find_idx(s, s[i].name);
    if find_idx(s, s[i].name) != i {
        assert(s[find_idx(s, s[i].name)].name == s[i].name);
    }
}

/// Each enumerated name comes from some enumerable slot.
proof fn lemma_enum_keys_index(s: Seq<SlotV>, j: int)
    requires
        0 <= j < enum_keys(s).len(),
    ensures
        exists|i: int| 0 <= i < s.len() && s[i].name == enum_keys(s)[j] && s[i].attrs.enumerable,
    decreases s.len(),
{
    if s.len() > 0 {
        let rest = enum_keys(s.drop_last());
        if j < rest.len() {
            lemma_enum_keys_index(s.drop_last(), j);
            let i = choose|i: int|
                0 <= i < s.drop_last().len() && s.drop_last()[i].name == rest[j]
                    && s.drop_last()[i].attrs.enumerable;
            assert(s[i].name == enum_keys(s)[j] && s[i].attrs.enumerable);
        } else {
            assert(s[s.len() - 1].name == enum_keys(s)[j] && s[s.len() - 1].attrs.enumerable);
        }
    }
}

/// Every own enumerable key is enumerated.
pub proof fn lemma_enum_keys_complete(s: Seq<SlotV>, k: Seq<char>)
    requires
        keys_unique(s),
        has_key(s, k),
        attrs_of(s, k).enumerable,
    ensures
        exists|j: int| 0 <= j < enum_keys(s).len() && enum_keys(s)[j] == k,
    decreases s.len(),
{
    lemma_find_idx(s, k);
    let i = find_idx(s, k);
    if i == s.len() - 1 {
        if s[i].attrs.enumerable {
            assert(enum_keys(s)[enum_keys(s).len() - 1] == k);
        }
    } else {
        assert forall|x: int| 0 <= x < i implies s.drop_last()[x].name != k by {
            assert(s[x].name != k);
        }
        assert(s.drop_last()[i] == s[i]);
        lemma_find_at(s.drop_last(), k, i);
        lemma_enum_keys_complete(s.drop_last(), k);
        let j = choose|j: int|
            0 <= j < enum_keys(s.drop_last()).len() && enum_keys(s.drop_last())[j] == k;
        assert(enum_keys(s)[j] == k);
    }
}

/// Law: replacing the value of an existing slot leaves the enumeration
/// order — indeed the whole name sequence and every attribute — unchanged,
/// so re-setting a name never moves it.
pub proof fn lemma_reset_keeps_position(s: Seq<SlotV>, i: int, value: VVal)
    requires
        0 <= i < s.len(),
    ensures
        enum_keys(s.update(i, SlotV { name: s[i].name, value, attrs: s[i].attrs })) == enum_keys(
            s,
        ),
        all_keys(s.update(i, SlotV { name: s[i].name, value, attrs: s[i].attrs })) == all_keys(s),
    decreases s.len(),
{
    let t = s.update(i, SlotV { name: s[i].name, value, attrs: s[i].attrs });
    lemma_same_shape_same_keys(s, t);
}

/// Tables that agree on names and attributes slot by slot enumerate alike.
pub proof fn lemma_same_shape_same_keys(s: Seq<SlotV>, t: Seq<SlotV>)
    requires
        s.len() == t.len(),
        forall|i: int| 0 <= i < s.len() ==> s[i].name == t[i].name && s[i].attrs == t[i].attrs,
    ensures
        enum_keys(s) == enum_keys(t),
        all_keys(s) == all_keys(t),
    decreases s.len(),
{
    assert(all_keys(s) =~~= all_keys(t));
    if s.len() == 0 {
        assert(enum_keys(s) =~= enum_keys(t));
    } else {
        lemma_same_shape_same_keys(s.drop_last(), t.drop_last());
        assert(s.last().name == t.last().name && s.last().attrs == t.last().attrs);
        assert(enum_keys(s) =~~= enum_keys(t));
    }
}

} // verus!