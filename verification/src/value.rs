//! Dynamically-typed values and the errors of the runtime.

use vstd::prelude::*;

use crate::wstr::WString;

verus! {

/// A script-visible value: a tagged union over the dynamic types of the
/// runtime. An object reference is the index of a live heap cell; absence is
/// represented by the `Undefined` and `Null` tags, never by a dangling
/// reference.
#[derive(Debug)]
pub enum Value {
    Undefined,
    Null,
    Bool(bool),
    /// Numeric payload. The runtime treats numbers as opaque 64-bit
    /// quantities; all arithmetic on them happens in host handlers.
    Num(i64),
    Str(WString),
    Object(usize),
}

/// The mathematical model of a value: a string is its code-unit sequence,
/// width forgotten; everything else is carried as is.
pub enum VVal {
    Undefined,
    Null,
    Bool(bool),
    Num(i64),
    Str(Seq<u16>),
    Obj(usize),
}

/// The model of a value.
pub open spec fn vv(v: Value) -> VVal {
    match v {
        Value::Undefined => VVal::Undefined,
        Value::Null => VVal::Null,
        Value::Bool(b) => VVal::Bool(b),
        Value::Num(n) => VVal::Num(n),
        Value::Str(s) => VVal::Str(s@),
        Value::Object(h) => VVal::Obj(h),
    }
}

impl Value {
    /// Structural copy: the copy models the same value, and a string keeps
    /// its width.
    pub fn dup(&self) -> (r: Value)
        ensures
            vv(r) == vv(*self),
    {
        match self {
            Value::Undefined => Value::Undefined,
            Value::Null => Value::Null,
            Value::Bool(b) => Value::Bool(*b),
            Value::Num(n) => Value::Num(*n),
            Value::Str(s) => Value::Str(s.dup()),
            Value::Object(h) => Value::Object(*h),
        }
    }

    /// The heap cell an object value refers to, if it is one.
    pub fn as_object(&self) -> (r: Option<usize>)
        ensures
            match r {
                Some(h) => vv(*self) == VVal::Obj(h),
                None => !(vv(*self) is Obj),
            },
    {
        match self {
            Value::Object(h) => Some(*h),
            _ => None,
        }
    }
}

impl PartialEq for Value {
    /// Equality of values is equality of their models: strings compare by
    /// code units regardless of width, object references by cell index.
    fn eq(&self, other: &Value) -> (r: bool) {
        match (self, other) {
            (Value::Undefined, Value::Undefined) => true,
            (Value::Null, Value::Null) => true,
            (Value::Bool(a), Value::Bool(b)) => a == b,
            (Value::Num(a), Value::Num(b)) => a == b,
            (Value::Str(a), Value::Str(b)) => a.eq_units(b),
            (Value::Object(a), Value::Object(b)) => a == b,
            _ => false,
        }
    }
}

impl Eq for Value {

}

impl vstd::std_specs::cmp::PartialEqSpecImpl for Value {
    open spec fn obeys_eq_spec() -> bool {
        true
    }

    open spec fn eq_spec(&self, other: &Value) -> bool {
        vv(*self) == vv(*other)
    }
}

/// The errors this core can propagate. Not-found conditions and
/// attribute-violating writes and deletes are not errors (they produce
/// `Undefined` or are silently absorbed); only a failing conversion, an
/// uncallable callee, or a serialization that cannot represent its input
/// surfaces here.
#[derive(Clone, Copy, PartialEq, Eq, Structural, Debug)]
pub enum VmError {
    /// A value could not be converted to the type a caller demanded.
    TypeCoercion,
    /// A string value holds code units that the textual persistence format
    /// cannot carry (an unpaired surrogate).
    StringEncoding,
    /// An invocation target carries no function payload.
    NotCallable,
    /// A serialization walk ran past its nesting allowance.
    DepthExceeded,
    /// A numeric payload at the very edge of the representable range,
    /// which the textual persistence format's integer path cannot carry.
    NumberRange,
}

/// The result shape of a dispatched call: an ordinary completion or a
/// forced early return. Callers of `invoke` see both as a plain value; the
/// distinction matters only inside the (external) interpreter loop.
pub enum Completion {
    Ordinary(Value),
    EarlyReturn(Value),
}

impl Completion {
    /// The value a completion carries, whichever way it completed.
    pub open spec fn spec_value(&self) -> VVal {
        match self {
            Completion::Ordinary(v) => vv(*v),
            Completion::EarlyReturn(v) => vv(*v),
        }
    }

    pub fn into_value(self) -> (r: Value)
        ensures
            vv(r) == self.spec_value(),
    {
        match self {
            Completion::Ordinary(v) => v,
            Completion::EarlyReturn(v) => v,
        }
    }
}

/// The decimal digit units of a natural number, most significant first.
pub open spec fn dec_digits(n: nat) -> Seq<u16>
    decreases n,
{
    if n < 10 {
        seq![(0x30 + n) as u16]
    } else {
        dec_digits(n / 10).push((0x30 + n % 10) as u16)
    }
}

/// The code units of the textual form of a value, where one exists: the
/// fixed words for the unit types and booleans, signed decimal for numbers,
/// and a string's own units.
pub open spec fn coerce_str(v: VVal) -> Seq<u16> {
    match v {
        VVal::Undefined => "undefined"@.map_values(|c: char| c as u16),
        VVal::Null => "null"@.map_values(|c: char| c as u16),
        VVal::Bool(b) => if b {
            "true"@.map_values(|c: char| c as u16)
        } else {
            "false"@.map_values(|c: char| c as u16)
        },
        VVal::Num(n) => if n >= 0 {
            dec_digits(n as nat)
        } else {
            seq![0x2Du16] + dec_digits((-(n as int)) as nat)
        },
        VVal::Str(s) => s,
        VVal::Obj(_) => Seq::empty(),
    }
}

/// Appends the decimal digits of `n` to a string buffer.
fn push_dec(n: u64, out: &mut WString)
    ensures
        final(out)@ == old(out)@ + dec_digits(n as nat),
        final(out).spec_is_wide() == old(out).spec_is_wide(),
    decreases n,
{
    if n < 10 {
        out.push(0x30 + (n as u16));
        proof {
            assert(final(out)@ =~= old(out)@ + dec_digits(n as nat));
        }
    } else {
        push_dec(n / 10, out);
        out.push(0x30 + ((n % 10) as u16));
        proof {
            assert(final(out)@ =~= old(out)@ + dec_digits(n as nat));
        }
    }
}

/// Appends each character of an ASCII literal as one narrow code unit.
fn push_ascii(s: &str, out: &mut WString)
    requires
        forall|i: int| 0 <= i < s@.len() ==> s@[i] as u32 <= 0xFF,
    ensures
        final(out)@ == old(out)@ + s@.map_values(|c: char| c as u16),
        final(out).spec_is_wide() == old(out).spec_is_wide(),
{
    let n = s.unicode_len();
    let mut i: usize = 0;
    while i < n
        invariant
            n == s@.len(),
            i <= n,
            forall|k: int| 0 <= k < s@.len() ==> s@[k] as u32 <= 0xFF,
            out@ == old(out)@ + s@.map_values(|c: char| c as u16).take(i as int),
            out.spec_is_wide() == old(out).spec_is_wide(),
        decreases n - i,
    {
        let c = s.get_char(i);
        out.push(c as u16);
        i += 1;
        proof {
            assert(out@ =~= old(out)@ + s@.map_values(|c: char| c as u16).take(i as int));
        }
    }
    proof {
        assert(s@.map_values(|c: char| c as u16).take(n as int) =~= s@.map_values(
            |c: char| c as u16,
        ));
    }
}

/// Converts a value to its textual form. Object references have no textual
/// form at this layer (that would take a script-driven `toString` call,
/// which belongs to the interpreter): converting one fails.
pub fn coerce_to_wstring(v: &Value) -> (r: Result<WString, VmError>)
    ensures
        match r {
            Ok(w) => !(vv(*v) is Obj) && w@ == coerce_str(vv(*v)),
            Err(e) => vv(*v) is Obj && e == VmError::TypeCoercion,
        },
{
    match v {
        Value::Undefined => {
            let mut w = WString::new();
            proof {
                reveal_strlit("undefined");
            }
            push_ascii("undefined", &mut w);
            proof {
                assert(w@ =~= coerce_str(vv(*v)));
            }
            Ok(w)
        },
        Value::Null => {
            let mut w = WString::new();
            proof {
                reveal_strlit("null");
            }
            push_ascii("null", &mut w);
            proof {
                assert(w@ =~= coerce_str(vv(*v)));
            }
            Ok(w)
        },
        Value::Bool(b) => {
            let mut w = WString::new();
            proof {
                reveal_strlit("true");
                reveal_strlit("false");
            }
            if *b {
                push_ascii("true", &mut w);
            } else {
                push_ascii("false", &mut w);
            }
            proof {
                assert(w@ =~= coerce_str(vv(*v)));
            }
            Ok(w)
        },
        Value::Num(n) => {
            let mut w = WString::new();
            if *n >= 0 {
                push_dec(*n as u64, &mut w);
                proof {
                    assert(w@ =~= coerce_str(vv(*v)));
                }
            } else {
                w.push(0x2D);
                let mag: u64 = ((-(*n + 1)) as u64) + 1;
                push_dec(mag, &mut w);
                proof {
                    assert(mag == -(*n as int));
                    assert(w@ =~= coerce_str(vv(*v)));
                }
            }
            Ok(w)
        },
        Value::Str(s) => Ok(s.dup()),
        Value::Object(_) => Err(VmError::TypeCoercion),
    }
}

} // verus!
