//! Object and value runtime for a prototype-based scripting virtual machine:
//! a garbage-collected heap of dynamically shaped objects with prototype-chain
//! inheritance, attribute-carrying property tables, native object kinds with
//! safe downcasting, a function dispatch protocol, and a dual-width string
//! buffer type with legacy comparison semantics.

use vstd::prelude::*;

pub mod bevel_filter;
pub mod doc;
pub mod object;
pub mod function;
pub mod globals;
pub mod heap;
pub mod property;
pub mod value;
pub mod wstr;

verus! {

/// Attribute set of a property slot.
#[derive(Clone, Copy, PartialEq, Eq, Structural, Debug)]
pub struct Attributes {
    pub enumerable: bool,
    pub read_only: bool,
    pub non_deletable: bool,
}

impl Attributes {
    /// The empty attribute set: enumerable off, read-only off, non-deletable off.
    pub fn empty() -> (r: Attributes)
        ensures
            r == Attributes::spec_empty(),
    {
        Attributes { enumerable: false, read_only: false, non_deletable: false }
    }

    pub open spec fn spec_empty() -> Attributes {
        Attributes { enumerable: false, read_only: false, non_deletable: false }
    }

    /// The default attribute set of a script-created slot: enumerable only.
    pub fn enumerable_only() -> (r: Attributes)
        ensures
            r == Attributes::spec_enumerable_only(),
    {
        Attributes { enumerable: true, read_only: false, non_deletable: false }
    }

    pub open spec fn spec_enumerable_only() -> Attributes {
        Attributes { enumerable: true, read_only: false, non_deletable: false }
    }
}

} // verus!
