//! The bevel visual-filter parameter bag: a native object kind adding
//! strongly-typed numeric fields on top of the generic base.
//!
//! The runtime carries filter magnitudes as 64-bit integral parameters (the
//! script layer's number payload); colors and quality are 32-bit integers.

use vstd::prelude::*;

use crate::heap::{Heap, HeapObj, Mutation, NativeKind, ObjBase};
use crate::object::ProtoRegistry;
use crate::property::PropertyTable;

verus! {

/// Placement of the bevel effect.
#[derive(Clone, Copy, PartialEq, Eq, Structural, Debug)]
pub enum BevelFilterType {
    Inner,
    Outer,
    Full,
}

impl BevelFilterType {
    /// The type a script name selects: `inner`, `outer` and `full` name
    /// their variants, anything else falls back to `Full`.
    pub open spec fn spec_from_name(s: Seq<char>) -> BevelFilterType {
        if s == "inner"@ {
            BevelFilterType::Inner
        } else if s == "outer"@ {
            BevelFilterType::Outer
        } else {
            BevelFilterType::Full
        }
    }

    /// Parses a script-supplied type name.
    pub fn from_name(s: &String) -> (r: BevelFilterType)
        ensures
            r == BevelFilterType::spec_from_name(s@),
    {
        let inner = String::from_str("inner");
        let outer = String::from_str("outer");
        if *s == inner {
            BevelFilterType::Inner
        } else if *s == outer {
            BevelFilterType::Outer
        } else {
            BevelFilterType::Full
        }
    }

    /// The script name of a type.
    pub fn name(&self) -> (r: &'static str)
        ensures
            r@ == (match self {
                BevelFilterType::Inner => "inner"@,
                BevelFilterType::Outer => "outer"@,
                BevelFilterType::Full => "full"@,
            }),
            *self == BevelFilterType::spec_from_name(r@),
    {
        proof {
            reveal_strlit("inner");
            reveal_strlit("outer");
            reveal_strlit("full");
            assert("outer"@[0] != "inner"@[0]);
            assert("outer"@ != "inner"@);
            assert("full"@.len() != "inner"@.len());
            assert("full"@ != "inner"@ && "full"@ != "outer"@);
        }
        match self {
            BevelFilterType::Inner => "inner",
            BevelFilterType::Outer => "outer",
            BevelFilterType::Full => "full",
        }
    }
}

/// The typed fields of a bevel filter.
#[derive(Clone, Copy, PartialEq, Eq, Structural, Debug)]
pub struct BevelFilterData {
    pub angle: i64,
    pub blur_x: i64,
    pub blur_y: i64,
    pub distance: i64,
    pub highlight_alpha: i64,
    pub highlight_color: i32,
    pub knockout: bool,
    pub quality: i32,
    pub shadow_alpha: i64,
    pub shadow_color: i32,
    pub strength: i64,
    pub type_: BevelFilterType,
}

impl BevelFilterData {
    /// The documented defaults of a freshly constructed filter.
    pub fn defaults() -> (r: BevelFilterData)
        ensures
            r == BevelFilterData::spec_defaults(),
    {
        BevelFilterData {
            angle: 45,
            blur_x: 4,
            blur_y: 4,
            distance: 4,
            highlight_alpha: 1,
            highlight_color: 0xFFFFFF,
            knockout: false,
            quality: 1,
            shadow_alpha: 1,
            shadow_color: 0x000000,
            strength: 1,
            type_: BevelFilterType::Inner,
        }
    }

    pub open spec fn spec_defaults() -> BevelFilterData {
        BevelFilterData {
            angle: 45,
            blur_x: 4,
            blur_y: 4,
            distance: 4,
            highlight_alpha: 1,
            highlight_color: 0xFFFFFF,
            knockout: false,
            quality: 1,
            shadow_alpha: 1,
            shadow_color: 0x000000,
            strength: 1,
            type_: BevelFilterType::Inner,
        }
    }

    pub fn get_angle(&self) -> (r: i64)
        ensures
            r == self.angle,
    {
        self.angle
    }

    pub fn set_angle(&mut self, v: i64)
        ensures
            *final(self) == (BevelFilterData { angle: v, ..*old(self) }),
    {
        self.angle = v;
    }

    pub fn get_blur_x(&self) -> (r: i64)
        ensures
            r == self.blur_x,
    {
        self.blur_x
    }

    pub fn set_blur_x(&mut self, v: i64)
        ensures
            *final(self) == (BevelFilterData { blur_x: v, ..*old(self) }),
    {
        self.blur_x = v;
    }

    pub fn get_blur_y(&self) -> (r: i64)
        ensures
            r == self.blur_y,
    {
        self.blur_y
    }

    pub fn set_blur_y(&mut self, v: i64)
        ensures
            *final(self) == (BevelFilterData { blur_y: v, ..*old(self) }),
    {
        self.blur_y = v;
    }

    pub fn get_distance(&self) -> (r: i64)
        ensures
            r == self.distance,
    {
        self.distance
    }

    pub fn set_distance(&mut self, v: i64)
        ensures
            *final(self) == (BevelFilterData { distance: v, ..*old(self) }),
    {
        self.distance = v;
    }

    pub fn get_highlight_alpha(&self) -> (r: i64)
        ensures
            r == self.highlight_alpha,
    {
        self.highlight_alpha
    }

    pub fn set_highlight_alpha(&mut self, v: i64)
        ensures
            *final(self) == (BevelFilterData { highlight_alpha: v, ..*old(self) }),
    {
        self.highlight_alpha = v;
    }

    pub fn get_highlight_color(&self) -> (r: i32)
        ensures
            r == self.highlight_color,
    {
        self.highlight_color
    }

    pub fn set_highlight_color(&mut self, v: i32)
        ensures
            *final(self) == (BevelFilterData { highlight_color: v, ..*old(self) }),
    {
        self.highlight_color = v;
    }

    pub fn get_knockout(&self) -> (r: bool)
        ensures
            r == self.knockout,
    {
        self.knockout
    }

    pub fn set_knockout(&mut self, v: bool)
        ensures
            *final(self) == (BevelFilterData { knockout: v, ..*old(self) }),
    {
        self.knockout = v;
    }

    pub fn get_quality(&self) -> (r: i32)
        ensures
            r == self.quality,
    {
        self.quality
    }

    pub fn set_quality(&mut self, v: i32)
        ensures
            *final(self) == (BevelFilterData { quality: v, ..*old(self) }),
    {
        self.quality = v;
    }

    pub fn get_shadow_alpha(&self) -> (r: i64)
        ensures
            r == self.shadow_alpha,
    {
        self.shadow_alpha
    }

    pub fn set_shadow_alpha(&mut self, v: i64)
        ensures
            *final(self) == (BevelFilterData { shadow_alpha: v, ..*old(self) }),
    {
        self.shadow_alpha = v;
    }

    pub fn get_shadow_color(&self) -> (r: i32)
        ensures
            r == self.shadow_color,
    {
        self.shadow_color
    }

    pub fn set_shadow_color(&mut self, v: i32)
        ensures
            *final(self) == (BevelFilterData { shadow_color: v, ..*old(self) }),
    {
        self.shadow_color = v;
    }

    pub fn get_strength(&self) -> (r: i64)
        ensures
            r == self.strength,
    {
        self.strength
    }

    pub fn set_strength(&mut self, v: i64)
        ensures
            *final(self) == (BevelFilterData { strength: v, ..*old(self) }),
    {
        self.strength = v;
    }

    pub fn get_type(&self) -> (r: BevelFilterType)
        ensures
            r == self.type_,
    {
        self.type_
    }

    pub fn set_type(&mut self, v: BevelFilterType)
        ensures
            *final(self) == (BevelFilterData { type_: v, ..*old(self) }),
    {
        self.type_ = v;
    }
}

/// Allocates a bare bevel-filter object with default typed fields and the
/// given prototype.
pub fn empty_object(heap: &mut Heap, mc: &Mutation, proto: Option<usize>) -> (h: usize)
    requires
        old(heap).wf(),
        match proto {
            Some(p) => old(heap).live(p as int),
            None => true,
        },
    ensures
        final(heap).wf(),
        old(heap).retained_by(*final(heap)),
        final(heap).cells@.len() == old(heap).cells@.len() + 1,
        h == old(heap).cells@.len(),
        forall|x: int| 0 <= x < old(heap).cells@.len() ==> final(heap).cells@[x] == old(
            heap,
        ).cells@[x],
        final(heap).live(h as int),
        final(heap).obj(h as int).is_bevel_filter(),
        final(heap).obj(h as int).spec_bevel() == Some(BevelFilterData::spec_defaults()),
        final(heap).proto_of(h as int) == proto,
        final(heap).table(h as int) == Seq::<crate::property::SlotV>::empty(),
{
    let obj = HeapObj {
        base: ObjBase { table: PropertyTable::new(), proto },
        kind: NativeKind::BevelFilter(BevelFilterData::defaults()),
    };
    heap.allocate(mc, obj)
}

/// The bevel filter's construction entry: a fresh instance under the
/// registry's bevel-filter prototype.
pub fn create_bare_object(heap: &mut Heap, mc: &Mutation, protos: &ProtoRegistry) -> (h: usize)
    requires
        old(heap).wf(),
        protos.ok(*old(heap)),
    ensures
        final(heap).wf(),
        old(heap).retained_by(*final(heap)),
        final(heap).cells@.len() == old(heap).cells@.len() + 1,
        h == old(heap).cells@.len(),
        forall|x: int| 0 <= x < old(heap).cells@.len() ==> final(heap).cells@[x] == old(
            heap,
        ).cells@[x],
        final(heap).live(h as int),
        final(heap).obj(h as int).is_bevel_filter(),
        final(heap).obj(h as int).spec_bevel() == Some(BevelFilterData::spec_defaults()),
        final(heap).proto_of(h as int) == Some(protos.bevel_filter),
        final(heap).table(h as int) == Seq::<crate::property::SlotV>::empty(),
{
    empty_object(heap, mc, Some(protos.bevel_filter))
}

} // verus!
